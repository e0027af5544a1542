//! Applying a list of patch operations to an image held in memory: padding
//! first, then the header edits in order, then the checksum.
use vstd::prelude::*;
use vstd::string::StringSliceAdditionalSpecFns;
use crate::header::{
    byte_sum, checked_region, checksum_of, copy_padded, lemma_checksum_balances, with_checksum,
    CHECKSUM_BIAS, CHECKSUM_OFFSET, with_debugging, with_field, zero_padded, GbaHeader,
    GAME_CODE_OFFSET, HEADER_SIZE, MAKER_CODE_OFFSET, TITLE_LEN, TITLE_OFFSET, VERSION_OFFSET,
};
use crate::ops::{PatchOp, PatchOpModel};
use crate::pad::{lemma_pad_len_is_least, pad_len, pad_to_power_of_two, padded};

verus! {

pub const SLASH: u8 = 0x2F;

pub const DOT: u8 = 0x2E;

/// Index of the last `b` in `s`, or -1 when there is none.
pub open spec fn last_index_of(s: Seq<u8>, b: u8) -> int
    decreases s.len(),
{
    if s.len() == 0 {
        -1
    } else if s.last() == b {
        s.len() - 1
    } else {
        last_index_of(s.drop_last(), b)
    }
}

/// The last component of a `/`-separated path.
pub open spec fn base_name(name: Seq<u8>) -> Seq<u8> {
    name.skip(last_index_of(name, SLASH) + 1)
}

/// A file name without its extension: the part before the last `.`, unless
/// that `.` is the first byte.
pub open spec fn stem(base: Seq<u8>) -> Seq<u8> {
    let dot = last_index_of(base, DOT);
    if dot > 0 {
        base.take(dot)
    } else {
        base
    }
}

/// The title derived from a file name: its stem, cut or zero-padded to 12 bytes.
pub open spec fn title_from_name(name: Seq<u8>) -> Seq<u8> {
    zero_padded(stem(base_name(name)), TITLE_LEN as nat)
}

/// Header `h` after one operation; `name_title` stands in for a title to be
/// derived from the file name.
pub open spec fn apply_op(h: Seq<u8>, op: PatchOpModel, name_title: Seq<u8>) -> Seq<u8> {
    match op {
        PatchOpModel::Pad => h,
        PatchOpModel::Title(Some(t)) => with_field(h, TITLE_OFFSET as int, t),
        PatchOpModel::Title(None) => with_field(h, TITLE_OFFSET as int, name_title),
        PatchOpModel::GameCode(c) => with_field(h, GAME_CODE_OFFSET as int, c),
        PatchOpModel::MakerCode(c) => with_field(h, MAKER_CODE_OFFSET as int, c),
        PatchOpModel::Version(v) => h.update(VERSION_OFFSET as int, v),
        PatchOpModel::Debug(on) => with_debugging(h, on),
    }
}

/// Header `h` after the operations, applied in their order.
pub open spec fn apply_ops(h: Seq<u8>, ops: Seq<PatchOp>, name_title: Seq<u8>) -> Seq<u8>
    decreases ops.len(),
{
    if ops.len() == 0 {
        h
    } else {
        apply_op(apply_ops(h, ops.drop_last(), name_title), ops.last()@, name_title)
    }
}

pub open spec fn has_pad(ops: Seq<PatchOp>) -> bool {
    exists|i: int| 0 <= i < ops.len() && ops[i] is Pad
}

/// The image `buf` after the operations, for a file called `name`: padded if
/// any operation asks for it, the header edited in order, the checksum
/// recomputed last, and every byte past the header kept.
pub open spec fn patched(buf: Seq<u8>, ops: Seq<PatchOp>, name: Seq<u8>) -> Seq<u8> {
    let b = if has_pad(ops) {
        padded(buf)
    } else {
        buf
    };
    with_checksum(apply_ops(b.take(HEADER_SIZE as int), ops, title_from_name(name))) + b.skip(
        HEADER_SIZE as int,
    )
}

/// The header of a patched image carries a balanced checksum: the
/// checksummed bytes, the checksum and the bias add up to a multiple of 256.
pub proof fn lemma_patched_checksum_balances(buf: Seq<u8>, ops: Seq<PatchOp>, name: Seq<u8>)
    requires
        buf.len() >= HEADER_SIZE,
    ensures
        ({
            let h = patched(buf, ops, name).take(HEADER_SIZE as int);
            (byte_sum(checked_region(h)) + h[CHECKSUM_OFFSET as int] + CHECKSUM_BIAS) % 256 == 0
        }),
{
    lemma_pad_len_is_least(buf.len());
    let b = if has_pad(ops) {
        padded(buf)
    } else {
        buf
    };
    let edited = apply_ops(b.take(HEADER_SIZE as int), ops, title_from_name(name));
    lemma_apply_ops_len(b.take(HEADER_SIZE as int), ops, title_from_name(name));
    assert(patched(buf, ops, name).take(HEADER_SIZE as int) =~= with_checksum(edited));
    lemma_checksum_balances(edited);
}

proof fn lemma_apply_ops_len(h: Seq<u8>, ops: Seq<PatchOp>, name_title: Seq<u8>)
    requires
        h.len() == HEADER_SIZE,
    ensures
        apply_ops(h, ops, name_title).len() == h.len(),
    decreases ops.len(),
{
    if ops.len() > 0 {
        lemma_apply_ops_len(h, ops.drop_last(), name_title);
    }
}

/// When the same field is set more than once, the last operation wins: after
/// operations that end in `Version(v)`, the version byte is `v`, and the
/// recomputed checksum is that of the header holding `v`.
pub proof fn lemma_later_version_wins(
    buf: Seq<u8>,
    ops: Seq<PatchOp>,
    name: Seq<u8>,
    v: u8,
)
    requires
        buf.len() >= HEADER_SIZE,
        ops.len() > 0,
        ops.last()@ == PatchOpModel::Version(v),
    ensures
        patched(buf, ops, name)[VERSION_OFFSET as int] == v,
        ({
            let h = patched(buf, ops, name).take(HEADER_SIZE as int);
            h[CHECKSUM_OFFSET as int] == checksum_of(h)
        }),
{
    lemma_pad_len_is_least(buf.len());
    let b = if has_pad(ops) {
        padded(buf)
    } else {
        buf
    };
    let edited = apply_ops(b.take(HEADER_SIZE as int), ops, title_from_name(name));
    lemma_apply_ops_len(b.take(HEADER_SIZE as int), ops, title_from_name(name));
    lemma_apply_ops_len(b.take(HEADER_SIZE as int), ops.drop_last(), title_from_name(name));
    assert(edited[VERSION_OFFSET as int] == v);
    let h = patched(buf, ops, name).take(HEADER_SIZE as int);
    assert(h =~= with_checksum(edited));
    assert(checked_region(h) =~= checked_region(edited));
    assert(patched(buf, ops, name)[VERSION_OFFSET as int] == h[VERSION_OFFSET as int]);
}

/// Position of the last `b` in `s[start..end]`, counted from `start`.
fn find_last(s: &[u8], start: usize, end: usize, b: u8) -> (r: Option<usize>)
    requires
        start <= end <= s@.len(),
    ensures
        match r {
            Some(k) => k == last_index_of(s@.subrange(start as int, end as int), b),
            None => last_index_of(s@.subrange(start as int, end as int), b) == -1,
        },
{
    let mut i = end;
    while i > start
        invariant
            start <= i <= end <= s@.len(),
            last_index_of(s@.subrange(start as int, end as int), b) == last_index_of(
                s@.subrange(start as int, i as int),
                b,
            ),
        decreases i,
    {
        if s[i - 1] == b {
            return Some(i - 1 - start);
        }
        assert(s@.subrange(start as int, i as int).drop_last() =~= s@.subrange(
            start as int,
            i - 1,
        ));
        i = i - 1;
    }
    None
}

proof fn lemma_last_index_bounds(s: Seq<u8>, b: u8)
    ensures
        -1 <= last_index_of(s, b) < s.len(),
    decreases s.len(),
{
    if s.len() > 0 {
        lemma_last_index_bounds(s.drop_last(), b);
    }
}

/// The 12-byte title derived from the file name `name`.
pub fn title_from_file_name(name: &[u8]) -> (r: [u8; TITLE_LEN])
    ensures
        r@ == title_from_name(name@),
{
    let ghost n = name@;
    proof {
        lemma_last_index_bounds(n, SLASH);
    }
    assert(n.subrange(0, n.len() as int) =~= n);
    let base_start = match find_last(name, 0, name.len(), SLASH) {
        Some(k) => k + 1,
        None => 0,
    };
    let ghost base = base_name(n);
    assert(base =~= n.subrange(base_start as int, n.len() as int));
    proof {
        lemma_last_index_bounds(base, DOT);
    }
    let stem_end = match find_last(name, base_start, name.len(), DOT) {
        Some(k) => if k > 0 {
            base_start + k
        } else {
            name.len()
        },
        None => name.len(),
    };
    assert(stem(base) =~= n.subrange(base_start as int, stem_end as int));
    copy_padded(name, base_start, stem_end)
}

/// Whether any of the operations is `Pad`.
pub fn contains_pad(ops: &[PatchOp]) -> (r: bool)
    ensures
        r == has_pad(ops@),
{
    let mut i: usize = 0;
    while i < ops.len()
        invariant
            i <= ops@.len(),
            forall|k: int| 0 <= k < i ==> !(ops@[k] is Pad),
        decreases ops@.len() - i,
    {
        if let PatchOp::Pad = ops[i] {
            return true;
        }
        i = i + 1;
    }
    false
}

/// Applies one operation to the header; `name_title` is the title derived
/// from the file name.
pub fn apply_op_to_header(header: &mut GbaHeader, op: PatchOp, name_title: &[u8; TITLE_LEN])
    ensures
        final(header)@ == apply_op(old(header)@, op@, name_title@),
{
    match op {
        PatchOp::Pad => {},
        PatchOp::Title(Some(t)) => header.set_title(&t),
        PatchOp::Title(None) => header.set_title(name_title),
        PatchOp::GameCode(c) => header.set_game_code(&c),
        PatchOp::MakerCode(c) => header.set_maker_code(&c),
        PatchOp::Version(v) => header.set_version(v),
        PatchOp::Debug(on) => header.set_debugging(on),
    }
}

/// Applies `ops` to the image in `buf` of the file called `name_hint`: pads
/// it to a power-of-two length if any operation is `Pad`, applies the header
/// edits in order (a later edit of a field wins), and recomputes the checksum
/// last, even when no operation touched the header.
pub fn apply_patches(ops: &[PatchOp], buf: &mut Vec<u8>, name_hint: &str)
    requires
        old(buf)@.len() >= HEADER_SIZE,
        has_pad(ops@) ==> pad_len(old(buf)@.len()) <= usize::MAX,
    ensures
        final(buf)@ == patched(old(buf)@, ops@, name_hint.spec_bytes()),
{
    if contains_pad(ops) {
        pad_to_power_of_two(buf);
        proof {
            lemma_pad_len_is_least(old(buf)@.len());
        }
    }
    let ghost b = buf@;
    let ghost h0 = b.take(HEADER_SIZE as int);
    let mut header = GbaHeader::read(buf.as_slice());
    let name_title = title_from_file_name(name_hint.as_bytes());
    let mut i: usize = 0;
    while i < ops.len()
        invariant
            i <= ops@.len(),
            header@ == apply_ops(h0, ops@.take(i as int), name_title@),
        decreases ops@.len() - i,
    {
        assert(ops@.take(i + 1).drop_last() =~= ops@.take(i as int));
        apply_op_to_header(&mut header, ops[i], &name_title);
        i = i + 1;
    }
    assert(ops@.take(ops@.len() as int) =~= ops@);
    header.update_checksum();
    header.write(buf);
}

} // verus!
