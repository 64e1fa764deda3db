//! The `TStreamerInfo` record of a split collection's struct, and adding
//! such a record to a stored `TList` of them.

use vstd::prelude::*;
use vstd::utf8::encode_utf8;
use crate::codec::{get_u32, i32_bytes, put_u32, u16_bytes, u32_at, u32_bytes};
use crate::rbuffer::K_BYTE_COUNT_MASK;
use super::baskets::put_tstring;
use super::branch::SplitMember;
use super::content::tstring_bytes;
use super::serialize::{
    any_bytes, array_head_bytes, begin_any, begin_array, begin_object, counted, end_any, end_array, end_object,
    lemma_counted, obj_array, put_i32, tnamed_bytes, write_tnamed,
};
use super::split::{checksum_feed, class_checksum, member_type_info, members_bytes, spec_member_type};

verus! {

/// Five zero `Int_t`s (`fMaxIndex`).
pub open spec fn max_index_bytes() -> Seq<u8> {
    i32_bytes(0) + i32_bytes(0) + i32_bytes(0) + i32_bytes(0) + i32_bytes(0)
}

/// A `TStreamerBasicType` (version 2) with a fresh class tag: its
/// `TStreamerElement` base (version 4) holding the member's name with an
/// empty title, its type code and size, no array length or dimensions,
/// zero `fMaxIndex`, and its type name.
pub open spec fn basic_element_bytes(name: Seq<char>, code: i32, size: i32, spelling: Seq<char>) -> Seq<u8> {
    any_bytes(
        encode_utf8("TStreamerBasicType"@),
        counted(
            2,
            counted(
                4,
                tnamed_bytes(0, name, Seq::empty()) + i32_bytes(code) + i32_bytes(size) + i32_bytes(0) + i32_bytes(0)
                    + max_index_bytes() + tstring_bytes(spelling),
            ),
        ),
    )
}

/// The element records of the members `ms`, one after another.
pub open spec fn member_elements_bytes(ms: Seq<SplitMember>) -> Seq<u8>
    decreases ms.len(),
{
    if ms.len() == 0 {
        Seq::empty()
    } else {
        let t = spec_member_type(ms.last().values_of());
        member_elements_bytes(ms.drop_last()) + basic_element_bytes(ms.last().name_of(), t.0, t.2, t.1)
    }
}

/// The `TStreamerInfo` (version 10) of a struct `class` with members `ms`,
/// with a fresh class tag: its name with an empty title, its checksum,
/// class version 1, and a `TObjArray` (with a fresh class tag) of one
/// number element per member.
pub open spec fn class_info_bytes(class: Seq<char>, ms: Seq<SplitMember>) -> Seq<u8> {
    let checksum = checksum_feed(0, encode_utf8(class) + members_bytes(ms));
    any_bytes(
        encode_utf8("TStreamerInfo"@),
        counted(
            10,
            tnamed_bytes(0x0001_0000, class, Seq::empty()) + u32_bytes(checksum) + i32_bytes(1) + any_bytes(
                encode_utf8("TObjArray"@),
                obj_array(ms.len() as i32, member_elements_bytes(ms)),
            ),
        ),
    )
}

/// Write one member's element record (see [`basic_element_bytes`]).
fn write_basic_element(w: &mut Vec<u8>, name: &str, code: i32, size: i32, spelling: &str)
    ensures
        final(w)@ == old(w)@ + basic_element_bytes(name@, code, size, spelling@),
{
    let t = begin_any(w, "TStreamerBasicType");
    let ghost w0 = w@;
    let bt = begin_object(w, 2);
    let ghost w1 = w@;
    let se = begin_object(w, 4);
    let ghost w2 = w@;
    let empty = String::new();
    write_tnamed(w, 0, name, empty.as_str());
    put_i32(w, code);
    put_i32(w, size);
    put_i32(w, 0);
    put_i32(w, 0);
    put_i32(w, 0);
    put_i32(w, 0);
    put_i32(w, 0);
    put_i32(w, 0);
    put_i32(w, 0);
    put_tstring(w, spelling);
    let ghost body4 = tnamed_bytes(0, name@, Seq::empty()) + i32_bytes(code) + i32_bytes(size) + i32_bytes(0)
        + i32_bytes(0) + max_index_bytes() + tstring_bytes(spelling@);
    proof {
        assert(w2 =~= w1 + seq![0u8, 0u8, 0u8, 0u8] + u16_bytes(4));
        lemma_counted(w1, 4, body4);
        assert(w@ =~= w1 + seq![0u8, 0u8, 0u8, 0u8] + u16_bytes(4) + body4);
    }
    end_object(w, se);
    let ghost body2 = counted(4, body4);
    proof {
        assert(w1 =~= w0 + seq![0u8, 0u8, 0u8, 0u8] + u16_bytes(2));
        lemma_counted(w0, 2, body2);
        assert(w@ =~= w0 + seq![0u8, 0u8, 0u8, 0u8] + u16_bytes(2) + body2);
    }
    end_object(w, bt);
    let ghost rec = counted(2, body2);
    proof {
        assert(w@.subrange(0, t as int) =~= old(w)@);
        assert(w@ =~= w@.subrange(0, t as int) + seq![0u8, 0u8, 0u8, 0u8] + u32_bytes(0xFFFF_FFFF) + encode_utf8(
            "TStreamerBasicType"@,
        ) + seq![0u8] + rec);
    }
    end_any(w, t, Ghost(encode_utf8("TStreamerBasicType"@)), Ghost(rec));
}

/// The `TStreamerInfo` record of a split collection's struct (see
/// [`class_info_bytes`]).
pub fn write_class_streamer_info(class_name: &str, members: &[SplitMember]) -> (r: Vec<u8>)
    ensures
        r@ == class_info_bytes(class_name@, members@),
{
    let checksum = class_checksum(class_name, members);
    let mut w: Vec<u8> = Vec::new();
    let bc = begin_any(&mut w, "TStreamerInfo");
    let ghost w0 = w@;
    let si = begin_object(&mut w, 10);
    write_tnamed(&mut w, 0x0001_0000, class_name, "");
    put_u32(&mut w, checksum);
    put_i32(&mut w, 1);
    let ghost w1 = w@;
    let oa_bc = begin_any(&mut w, "TObjArray");
    let ghost w2 = w@;
    let oa = begin_array(&mut w, members.len() as i32);
    let ghost w3 = w@;
    let mut i: usize = 0;
    assert(members@.take(0) =~= Seq::<SplitMember>::empty());
    while i < members.len()
        invariant
            i <= members@.len(),
            w@ == w3 + member_elements_bytes(members@.take(i as int)),
        decreases members@.len() - i,
    {
        let m = &members[i];
        let (code, spelling, size) = member_type_info(&m.values);
        write_basic_element(&mut w, m.name.as_str(), code, size, spelling);
        proof {
            assert(members@.take(i + 1).drop_last() =~= members@.take(i as int));
            assert(members@.take(i + 1).last() == *m);
            assert(w@ =~= w3 + member_elements_bytes(members@.take(i + 1)));
        }
        i += 1;
    }
    assert(members@.take(i as int) =~= members@);
    let ghost items = member_elements_bytes(members@);
    proof {
        assert(w@.subrange(0, oa as int) =~= w2);
        assert(w@ =~= w@.subrange(0, oa as int) + seq![0u8, 0u8, 0u8, 0u8] + u16_bytes(3) + array_head_bytes(
            members@.len() as i32,
        ) + items);
    }
    end_array(&mut w, oa, Ghost(members@.len() as i32), Ghost(items));
    let ghost arr = obj_array(members@.len() as i32, items);
    proof {
        assert(w@.subrange(0, oa_bc as int) =~= w1);
        assert(w@ =~= w@.subrange(0, oa_bc as int) + seq![0u8, 0u8, 0u8, 0u8] + u32_bytes(0xFFFF_FFFF) + encode_utf8(
            "TObjArray"@,
        ) + seq![0u8] + arr);
    }
    end_any(&mut w, oa_bc, Ghost(encode_utf8("TObjArray"@)), Ghost(arr));
    let ghost body = tnamed_bytes(0x0001_0000, class_name@, Seq::empty()) + u32_bytes(checksum) + i32_bytes(1)
        + any_bytes(encode_utf8("TObjArray"@), arr);
    proof {
        reveal_strlit("");
        assert(""@ =~= Seq::<char>::empty());
        lemma_counted(w0, 10, body);
        assert(w@ =~= w0 + seq![0u8, 0u8, 0u8, 0u8] + u16_bytes(10) + body);
    }
    end_object(&mut w, si);
    let ghost rec = counted(10, body);
    proof {
        assert(w@.subrange(0, bc as int) =~= Seq::<u8>::empty());
        assert(w@ =~= w@.subrange(0, bc as int) + seq![0u8, 0u8, 0u8, 0u8] + u32_bytes(0xFFFF_FFFF) + encode_utf8(
            "TStreamerInfo"@,
        ) + seq![0u8] + rec);
    }
    end_any(&mut w, bc, Ghost(encode_utf8("TStreamerInfo"@)), Ghost(rec));
    assert(w@ =~= class_info_bytes(class_name@, members@));
    w
}

/// Where a stored `TList`'s entry count sits: after its byte count and
/// version (6 bytes), its `TObject` (10 bytes) and its name.
pub open spec fn list_count_pos(blob: Seq<u8>) -> int {
    17 + if blob[16] == 255 {
        4 + u32_at(blob, 17)
    } else {
        blob[16] as int
    }
}

/// A stored `TList` of streamer infos holds the fields this change reads.
pub open spec fn list_ok(blob: Seq<u8>, info: Seq<u8>) -> bool {
    &&& blob.len() >= 21
    &&& list_count_pos(blob) + 4 <= blob.len()
    &&& (u32_at(blob, 0) & !K_BYTE_COUNT_MASK) + info.len() + 1 <= u32::MAX
    &&& (u32_at(blob, list_count_pos(blob)) as i32) < i32::MAX
}

/// The stored `TList` `blob` with the record `info` added: its byte count
/// grown by the record and an empty option string, its entry count one
/// larger, and the record and the empty option at its end.
pub open spec fn appended_list(blob: Seq<u8>, info: Seq<u8>) -> Seq<u8> {
    let p = list_count_pos(blob);
    let bcnt = ((u32_at(blob, 0) & !K_BYTE_COUNT_MASK) + info.len() + 1) as u32 | K_BYTE_COUNT_MASK;
    let n = (u32_at(blob, p) as i32 + 1) as i32;
    u32_bytes(bcnt) + blob.subrange(4, p) + i32_bytes(n) + blob.subrange(p + 4, blob.len() as int) + info + seq![0u8]
}

/// Add the `TStreamerInfo` record `info` to the stored `TList` `blob` (see
/// [`appended_list`]).
pub fn append_streamer_info(blob: &[u8], info: &[u8]) -> (r: Vec<u8>)
    requires
        list_ok(blob@, info@),
    ensures
        r@ == appended_list(blob@, info@),
{
    let bcnt = get_u32(blob, 0);
    let added = info.len() + 1;
    let new_bcnt = ((bcnt & !K_BYTE_COUNT_MASK) + added as u32) | K_BYTE_COUNT_MASK;
    let n = blob[16] as usize;
    let p: usize = if n == 255 {
        17 + 4 + get_u32(blob, 17) as usize
    } else {
        17 + n
    };
    let nobjects = get_u32(blob, p) as i32;
    let mut out: Vec<u8> = Vec::new();
    put_u32(&mut out, new_bcnt);
    let mut i: usize = 4;
    while i < p
        invariant
            4 <= i <= p,
            p + 4 <= blob@.len(),
            out@ == u32_bytes(new_bcnt) + blob@.subrange(4, i as int),
        decreases p - i,
    {
        out.push(blob[i]);
        assert(out@ =~= u32_bytes(new_bcnt) + blob@.subrange(4, i + 1));
        i += 1;
    }
    put_i32(&mut out, nobjects + 1);
    let ghost mid = out@;
    let mut k: usize = p + 4;
    while k < blob.len()
        invariant
            p + 4 <= k <= blob@.len(),
            out@ == mid + blob@.subrange(p + 4, k as int),
        decreases blob@.len() - k,
    {
        out.push(blob[k]);
        assert(out@ =~= mid + blob@.subrange(p + 4, k + 1));
        k += 1;
    }
    let ghost tail = out@;
    let mut m: usize = 0;
    while m < info.len()
        invariant
            m <= info@.len(),
            out@ == tail + info@.take(m as int),
        decreases info@.len() - m,
    {
        out.push(info[m]);
        assert(out@ =~= tail + info@.take(m + 1));
        m += 1;
    }
    out.push(0);
    assert(info@.take(m as int) =~= info@);
    assert(out@ =~= appended_list(blob@, info@));
    out
}

} // verus!
