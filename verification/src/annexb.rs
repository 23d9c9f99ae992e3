//! Annex-B NAL-unit splitting, and extraction of an access unit's parameter
//! sets (VPS/SPS/PPS) into a standalone buffer that carries no slice data.
use vstd::prelude::*;
use crate::v3wire::{NAL_TYPE_PPS, NAL_TYPE_SPS, NAL_TYPE_VPS};

verus! {

/// One HEVC NAL unit found inside an Annex-B buffer.
#[derive(Debug, PartialEq, Eq)]
pub struct AnnexBNal {
    /// Byte range of the NAL's payload (header included), without its start
    /// code.
    pub range: std::ops::Range<usize>,
    /// HEVC `nal_unit_type`: bits 6..1 of the payload's first byte.
    pub nal_type: u8,
}

/// `00 00 01` begins at `i`.
pub open spec fn code_at(d: Seq<u8>, i: int) -> bool {
    0 <= i && i + 2 < d.len() && d[i] == 0 && d[i + 1] == 0 && d[i + 2] == 1
}

/// Offsets of the `00 00 01` matches of a left-to-right scan from `i` that
/// resumes after each match (a 4-byte start code matches on its last three
/// bytes).
pub open spec fn start_codes_from(d: Seq<u8>, i: int) -> Seq<usize>
    decreases d.len() - i,
{
    if i < 0 || i + 2 >= d.len() {
        Seq::empty()
    } else if code_at(d, i) {
        seq![i as usize] + start_codes_from(d, i + 3)
    } else {
        start_codes_from(d, i + 1)
    }
}

/// HEVC `nal_unit_type` of a NAL whose first payload byte is `first`.
pub open spec fn nal_type_of(first: u8) -> u8 {
    ((first as int / 2) % 64) as u8
}

/// One NAL as plain values: payload start, payload end, type.
pub open spec fn nal_view(n: AnnexBNal) -> (usize, usize, u8) {
    (n.range.start, n.range.end, n.nal_type)
}

/// NALs delimited by the start codes `st[k..]`: each runs from three bytes
/// after its code to the next code (or the end of `d`); a code with no byte
/// after it, or with an empty payload, yields no NAL.
pub open spec fn nals_from(d: Seq<u8>, st: Seq<usize>, k: int) -> Seq<(usize, usize, u8)>
    decreases st.len() - k,
{
    if k < 0 || k >= st.len() {
        Seq::empty()
    } else {
        let ds = st[k] + 3;
        let end: int = if k + 1 < st.len() { st[k + 1] as int } else { d.len() as int };
        let rest = nals_from(d, st, k + 1);
        if ds < d.len() && ds < end {
            seq![(ds as usize, end as usize, nal_type_of(d[ds]))] + rest
        } else {
            rest
        }
    }
}

/// The NALs of an Annex-B buffer, in stream order.
pub open spec fn split_spec(d: Seq<u8>) -> Seq<(usize, usize, u8)> {
    nals_from(d, start_codes_from(d, 0), 0)
}

pub open spec fn is_param_set(t: u8) -> bool {
    t == NAL_TYPE_VPS || t == NAL_TYPE_SPS || t == NAL_TYPE_PPS
}

/// Parameter-set NALs of `nals` re-encoded, each behind a fresh 4-byte start
/// code, in their input order.
pub open spec fn param_set_bytes(d: Seq<u8>, nals: Seq<(usize, usize, u8)>) -> Seq<u8>
    decreases nals.len(),
{
    if nals.len() == 0 {
        Seq::empty()
    } else {
        let n = nals.last();
        let before = param_set_bytes(d, nals.drop_last());
        if is_param_set(n.2) {
            before + seq![0u8, 0u8, 0u8, 1u8] + d.subrange(n.0 as int, n.1 as int)
        } else {
            before
        }
    }
}

/// Types of the parameter-set NALs of `nals`, in order.
pub open spec fn param_set_types(nals: Seq<(usize, usize, u8)>) -> Seq<u8>
    decreases nals.len(),
{
    if nals.len() == 0 {
        Seq::empty()
    } else {
        let n = nals.last();
        let before = param_set_types(nals.drop_last());
        if is_param_set(n.2) { before.push(n.2) } else { before }
    }
}

proof fn lemma_start_codes_bounds(d: Seq<u8>, i: int)
    requires
        0 <= i,
        d.len() <= usize::MAX,
    ensures
        forall|k: int| 0 <= k < start_codes_from(d, i).len() ==> {
            let s = #[trigger] start_codes_from(d, i)[k];
            &&& i <= s
            &&& code_at(d, s as int)
        },
        forall|k: int| 0 <= k < start_codes_from(d, i).len() - 1 ==>
            start_codes_from(d, i)[k] + 3 <= #[trigger] start_codes_from(d, i)[k + 1],
    decreases d.len() - i,
{
    let cur = start_codes_from(d, i);
    if i + 2 < d.len() {
        if code_at(d, i) {
            lemma_start_codes_bounds(d, i + 3);
            let rest = start_codes_from(d, i + 3);
            assert(cur == seq![i as usize] + rest);
            assert(cur[0] == i);
            assert forall|k: int| 0 <= k < cur.len() implies {
                let s = #[trigger] cur[k];
                &&& i <= s
                &&& code_at(d, s as int)
            } by {
                if k > 0 {
                    assert(cur[k] == rest[k - 1]);
                }
            }
            assert forall|k: int| 0 <= k < cur.len() - 1 implies cur[k] + 3 <= #[trigger] cur[k + 1] by {
                assert(cur[k + 1] == rest[k]);
                if k > 0 {
                    assert(cur[k] == rest[k - 1]);
                    let j = k - 1;
                    assert(rest[j] + 3 <= rest[j + 1]);
                } else {
                    assert(rest[0] >= i + 3);
                }
            }
        } else {
            lemma_start_codes_bounds(d, i + 1);
            assert(cur == start_codes_from(d, i + 1));
        }
    }
}

/// Offsets of every `00 00 01` start-code match, in order.
pub fn find_start_codes(data: &[u8]) -> (starts: Vec<usize>)
    ensures
        starts@ == start_codes_from(data@, 0),
{
    let mut starts: Vec<usize> = Vec::new();
    let mut i: usize = 0;
    while data.len() >= 3 && i < data.len() - 2
        invariant
            i <= data@.len() + 2,
            starts@ + start_codes_from(data@, i as int) == start_codes_from(data@, 0),
        decreases data@.len() + 3 - i,
    {
        if data[i] == 0 && data[i + 1] == 0 && data[i + 2] == 1 {
            let ghost prev = starts@;
            starts.push(i);
            assert(prev + start_codes_from(data@, i as int)
                =~= starts@ + start_codes_from(data@, i + 3));
            i += 3;
        } else {
            i += 1;
        }
    }
    assert(starts@ + start_codes_from(data@, i as int) =~= starts@);
    starts
}

/// Split one Annex-B buffer into its NAL units, in stream order. A start
/// code with nothing after it yields no NAL.
pub fn split_annexb_nals(data: &[u8]) -> (nals: Vec<AnnexBNal>)
    ensures
        nals@.map_values(|n: AnnexBNal| nal_view(n)) == split_spec(data@),
        forall|k: int| 0 <= k < nals@.len() ==>
            (#[trigger] nals@[k]).range.start < nals@[k].range.end <= data@.len(),
{
    let starts = find_start_codes(data);
    let len = data.len();
    proof {
        lemma_start_codes_bounds(data@, 0);
    }
    let ghost st = starts@;
    let mut nals: Vec<AnnexBNal> = Vec::new();
    let mut idx: usize = 0;
    while idx < starts.len()
        invariant
            idx <= starts@.len(),
            len == data@.len(),
            st == starts@,
            st == start_codes_from(data@, 0),
            forall|k: int| 0 <= k < st.len() ==> code_at(data@, #[trigger] st[k] as int),
            forall|k: int| 0 <= k < st.len() - 1 ==> st[k] + 3 <= #[trigger] st[k + 1],
            nals@.map_values(|n: AnnexBNal| nal_view(n)) + nals_from(data@, st, idx as int)
                == nals_from(data@, st, 0),
            forall|k: int| 0 <= k < nals@.len() ==>
                (#[trigger] nals@[k]).range.start < nals@[k].range.end <= data@.len(),
        decreases starts@.len() - idx,
    {
        let start = starts[idx];
        assert(code_at(data@, st[idx as int] as int));
        let nal_data_start = start + 3;
        let ghost prev = nals@.map_values(|n: AnnexBNal| nal_view(n));
        if nal_data_start < data.len() {
            let nal_data_end = if idx + 1 < starts.len() { starts[idx + 1] } else { data.len() };
            if nal_data_start < nal_data_end {
                let first = data[nal_data_start];
                let nal_type = (first / 2) % 64;
                proof {
                    if idx + 1 < starts.len() {
                        assert(code_at(data@, st[idx + 1] as int));
                    }
                }
                nals.push(AnnexBNal { range: nal_data_start..nal_data_end, nal_type });
                assert(nals@.map_values(|n: AnnexBNal| nal_view(n))
                    =~= prev.push((nal_data_start, nal_data_end, nal_type)));
                assert(prev + nals_from(data@, st, idx as int)
                    =~= nals@.map_values(|n: AnnexBNal| nal_view(n)) + nals_from(data@, st, idx + 1));
            }
        }
        idx += 1;
    }
    assert(nals@.map_values(|n: AnnexBNal| nal_view(n)) + nals_from(data@, st, idx as int)
        =~= nals@.map_values(|n: AnnexBNal| nal_view(n)));
    nals
}

/// Re-encode only the parameter-set NALs (VPS, SPS, PPS) of one access
/// unit, each behind a fresh `00 00 00 01` start code and in their input
/// order. Returns the bytes and the types included; both are empty when the
/// access unit holds no parameter set.
pub fn extract_param_sets(au_data: &[u8]) -> (r: (Vec<u8>, Vec<u8>))
    ensures
        r.0@ == param_set_bytes(au_data@, split_spec(au_data@)),
        r.1@ == param_set_types(split_spec(au_data@)),
{
    let nals = split_annexb_nals(au_data);
    let ghost all = nals@.map_values(|n: AnnexBNal| nal_view(n));
    let mut out: Vec<u8> = Vec::new();
    let mut types_included: Vec<u8> = Vec::new();
    let mut i: usize = 0;
    while i < nals.len()
        invariant
            i <= nals@.len(),
            all == nals@.map_values(|n: AnnexBNal| nal_view(n)),
            forall|k: int| 0 <= k < nals@.len() ==>
                (#[trigger] nals@[k]).range.start < nals@[k].range.end <= au_data@.len(),
            out@ == param_set_bytes(au_data@, all.take(i as int)),
            types_included@ == param_set_types(all.take(i as int)),
        decreases nals@.len() - i,
    {
        let t = nals[i].nal_type;
        let s = nals[i].range.start;
        let e = nals[i].range.end;
        assert(all.take(i + 1).drop_last() =~= all.take(i as int));
        assert(all.take(i + 1).last() == (s, e, t));
        if t == NAL_TYPE_VPS || t == NAL_TYPE_SPS || t == NAL_TYPE_PPS {
            let ghost before = out@;
            out.push(0);
            out.push(0);
            out.push(0);
            out.push(1);
            assert(out@ =~= before + seq![0u8, 0u8, 0u8, 1u8] + au_data@.subrange(s as int, s as int));
            let mut k: usize = s;
            while k < e
                invariant
                    s <= k <= e,
                    e <= au_data@.len(),
                    out@ == before + seq![0u8, 0u8, 0u8, 1u8] + au_data@.subrange(s as int, k as int),
                decreases e - k,
            {
                out.push(au_data[k]);
                k += 1;
                assert(out@ =~= before + seq![0u8, 0u8, 0u8, 1u8] + au_data@.subrange(s as int, k as int));
            }
            types_included.push(t);
        }
        i += 1;
    }
    assert(all.take(i as int) =~= all);
    (out, types_included)
}

/// The types extracted are parameter-set types only (VPS, SPS, PPS), one per
/// parameter-set NAL of the input, in order: no slice (VCL) NAL survives.
pub proof fn lemma_extracted_types_are_param_sets(nals: Seq<(usize, usize, u8)>)
    ensures
        forall|i: int| 0 <= i < param_set_types(nals).len() ==> is_param_set(#[trigger] param_set_types(nals)[i]),
        param_set_types(nals).len() <= nals.len(),
    decreases nals.len(),
{
    if nals.len() > 0 {
        lemma_extracted_types_are_param_sets(nals.drop_last());
        let before = param_set_types(nals.drop_last());
        assert forall|i: int| 0 <= i < param_set_types(nals).len() implies is_param_set(#[trigger] param_set_types(nals)[i]) by {
            if i < before.len() {
                assert(param_set_types(nals)[i] == before[i]);
            }
        }
    }
}

// ---------------------------------------------------------------------------
// Re-splitting an extracted buffer
// ---------------------------------------------------------------------------

/// The 4-byte start code.
pub open spec fn four_byte_code() -> Seq<u8> {
    seq![0u8, 0u8, 0u8, 1u8]
}

/// Payloads re-encoded, each behind a 4-byte start code, built from the
/// front.
pub open spec fn framed(ps: Seq<Seq<u8>>) -> Seq<u8>
    decreases ps.len(),
{
    if ps.len() == 0 { Seq::empty() } else { four_byte_code() + ps[0] + framed(ps.drop_first()) }
}

/// Payloads re-encoded, built from the back.
pub open spec fn framed_back(ps: Seq<Seq<u8>>) -> Seq<u8>
    decreases ps.len(),
{
    if ps.len() == 0 { Seq::empty() } else { framed_back(ps.drop_last()) + four_byte_code() + ps.last() }
}

/// No `00 00 01` lies wholly inside `r`.
pub open spec fn clean(r: Seq<u8>) -> bool {
    forall|q: int| !#[trigger] code_at(r, q)
}

/// NAL types of a NAL list.
pub open spec fn types_of(nals: Seq<(usize, usize, u8)>) -> Seq<u8> {
    Seq::new(nals.len(), |i: int| nals[i].2)
}

/// Offsets moved `n` bytes further on.
pub open spec fn shift_by(st: Seq<usize>, n: int) -> Seq<usize> {
    Seq::new(st.len(), |k: int| (st[k] + n) as usize)
}

proof fn lemma_framed_back_front(ps: Seq<Seq<u8>>)
    ensures
        framed_back(ps) == framed(ps),
    decreases ps.len(),
{
    if ps.len() > 0 {
        lemma_framed_back_front(ps.drop_last());
        if ps.len() == 1 {
            assert(ps.drop_last().len() == 0);
            assert(ps.drop_first().len() == 0);
            assert(framed_back(ps.drop_last()) == Seq::<u8>::empty());
            assert(framed(ps.drop_first()) == Seq::<u8>::empty());
            assert(ps.last() == ps[0]);
            assert(framed_back(ps) =~= framed(ps));
        } else {
            let c = four_byte_code();
            lemma_framed_back_front(ps.drop_first());
            lemma_framed_back_front(ps.drop_first().drop_last());
            assert(ps.drop_last().drop_first() =~= ps.drop_first().drop_last());
            assert(ps.drop_first().last() == ps.last());
            assert(ps.drop_last()[0] == ps[0]);
            assert(framed(ps.drop_last()) == c + ps[0] + framed(ps.drop_last().drop_first()));
            assert(framed_back(ps.drop_first()) == framed_back(ps.drop_first().drop_last()) + c
                + ps.drop_first().last());
            assert(framed_back(ps) =~= framed(ps));
        }
    }
}

/// Scanning the tail `y` of `x + y` finds `y`'s codes, shifted.
proof fn lemma_scan_shift(x: Seq<u8>, y: Seq<u8>, i: int)
    requires
        0 <= i,
        (x + y).len() <= usize::MAX,
    ensures
        start_codes_from(x + y, x.len() + i) == shift_by(start_codes_from(y, i), x.len() as int),
    decreases y.len() - i,
{
    let b = x + y;
    let j = x.len() + i;
    if i + 2 >= y.len() {
        assert(shift_by(Seq::<usize>::empty(), x.len() as int) =~= Seq::<usize>::empty());
    } else {
        assert(b[j] == y[i] && b[j + 1] == y[i + 1] && b[j + 2] == y[i + 2]);
        assert(code_at(b, j) == code_at(y, i));
        if code_at(y, i) {
            lemma_scan_shift(x, y, i + 3);
            assert(shift_by(seq![i as usize] + start_codes_from(y, i + 3), x.len() as int)
                =~= seq![j as usize] + shift_by(start_codes_from(y, i + 3), x.len() as int));
        } else {
            lemma_scan_shift(x, y, i + 1);
        }
    }
}

/// Scanning across positions without a code changes nothing.
proof fn lemma_scan_skip(d: Seq<u8>, i: int, j: int)
    requires
        0 <= i <= j,
        forall|q: int| i <= q < j ==> !#[trigger] code_at(d, q),
    ensures
        start_codes_from(d, i) == start_codes_from(d, j),
    decreases j - i,
{
    if i < j && i + 2 < d.len() {
        lemma_scan_skip(d, i + 1, j);
    } else if i < j {
        lemma_scan_tail_empty(d, j);
    }
}

proof fn lemma_scan_tail_empty(d: Seq<u8>, j: int)
    requires
        j + 2 >= d.len(),
    ensures
        start_codes_from(d, j) == Seq::<usize>::empty(),
{
}

/// The buffer opens with a 4-byte start code, or is empty.
pub open spec fn opens_with_code(rest: Seq<u8>) -> bool {
    rest.len() == 0 || (rest.len() >= 4 && rest[0] == 0 && rest[1] == 0 && rest[2] == 0 && rest[3] == 1)
}

/// Codes of one framed payload followed by more framed payloads.
proof fn lemma_scan_piece(r: Seq<u8>, rest: Seq<u8>)
    requires
        r.len() > 0,
        clean(r),
        opens_with_code(rest),
        (four_byte_code() + r + rest).len() <= usize::MAX,
    ensures
        start_codes_from(four_byte_code() + r + rest, 0)
            == seq![1usize] + shift_by(start_codes_from(rest, 0), 4 + r.len() as int),
{
    let c = four_byte_code();
    let b = c + r + rest;
    let l: int = 4 + r.len() as int;
    assert(b[0] == 0 && b[1] == 0 && b[2] == 0 && b[3] == 1);
    assert(!code_at(b, 0));
    assert(code_at(b, 1));
    assert(start_codes_from(b, 0) == start_codes_from(b, 1));
    assert(start_codes_from(b, 1) == seq![1usize] + start_codes_from(b, 4));
    assert forall|q: int| 4 <= q < l implies !#[trigger] code_at(b, q) by {
        if q + 2 < l {
            assert(b[q] == r[q - 4] && b[q + 1] == r[q - 3] && b[q + 2] == r[q - 2]);
            assert(!code_at(r, q - 4));
        } else if q + 2 < b.len() {
            assert(rest.len() > 0);
            assert(b[l] == rest[0]);
            assert(b[l + 1] == rest[1]);
        }
    }
    lemma_scan_skip(b, 4, l);
    lemma_scan_shift(c + r, rest, 0);
    assert((c + r).len() == l);
}

/// Splitting a framed payload followed by more framed payloads: the
/// payload's NAL, then the rest's NALs.
proof fn lemma_nals_shift(b: Seq<u8>, y: Seq<u8>, l: int, sty: Seq<usize>, k: int)
    requires
        0 <= k,
        l >= 0,
        b.len() == l + y.len(),
        forall|i: int| 0 <= i < y.len() ==> b[l + i] == #[trigger] y[i],
        forall|i: int| 0 <= i < sty.len() ==> #[trigger] sty[i] + l <= usize::MAX,
        b.len() <= usize::MAX,
    ensures
        types_of(nals_from(b, seq![1usize] + shift_by(sty, l), k + 1)) == types_of(nals_from(y, sty, k)),
    decreases sty.len() - k,
{
    let stb = seq![1usize] + shift_by(sty, l);
    assert(stb.len() == sty.len() + 1);
    if k < sty.len() {
        lemma_nals_shift(b, y, l, sty, k + 1);
        let nb2 = nals_from(b, stb, k + 2);
        let ny1 = nals_from(y, sty, k + 1);
        assert(stb[k + 1] == sty[k] + l);
        let ds_y: int = sty[k] + 3;
        let end_y: int = if k + 1 < sty.len() { sty[k + 1] as int } else { y.len() as int };
        let end_b: int = if k + 2 < stb.len() { stb[k + 2] as int } else { b.len() as int };
        if k + 1 < sty.len() {
            assert(stb[k + 2] == sty[k + 1] + l);
        }
        assert(end_b == end_y + l);
        if ds_y < y.len() && ds_y < end_y {
            assert(b[ds_y + l] == y[ds_y]);
            assert(nals_from(b, stb, k + 1) == seq![((ds_y + l) as usize, end_b as usize, nal_type_of(b[ds_y + l]))] + nb2);
            assert(nals_from(y, sty, k) == seq![(ds_y as usize, end_y as usize, nal_type_of(y[ds_y]))] + ny1);
            assert(types_of(nals_from(b, stb, k + 1)) =~= seq![nal_type_of(y[ds_y])] + types_of(nb2));
            assert(types_of(nals_from(y, sty, k)) =~= seq![nal_type_of(y[ds_y])] + types_of(ny1));
        } else {
            assert(nals_from(b, stb, k + 1) == nb2);
            assert(nals_from(y, sty, k) == ny1);
        }
    } else {
        assert(nals_from(b, stb, k + 1) == Seq::<(usize, usize, u8)>::empty());
        assert(nals_from(y, sty, k) == Seq::<(usize, usize, u8)>::empty());
        assert(types_of(nals_from(b, stb, k + 1)) =~= types_of(nals_from(y, sty, k)));
    }
}

/// Re-splitting framed clean, non-empty payloads yields one NAL per
/// payload, typed by its first byte.
pub proof fn lemma_split_framed(ps: Seq<Seq<u8>>)
    requires
        forall|i: int| 0 <= i < ps.len() ==> (#[trigger] ps[i]).len() > 0 && clean(ps[i]),
        framed(ps).len() <= usize::MAX,
    ensures
        types_of(split_spec(framed(ps))) == Seq::new(ps.len(), |i: int| nal_type_of(ps[i][0])),
    decreases ps.len(),
{
    if ps.len() == 0 {
        assert(types_of(split_spec(framed(ps))) =~= Seq::<u8>::empty());
    } else {
        let c = four_byte_code();
        let r = ps[0];
        let tail = ps.drop_first();
        let rest = framed(tail);
        let b = framed(ps);
        assert(b == c + r + rest);
        assert(forall|i: int| 0 <= i < tail.len() ==> tail[i] == ps[i + 1]);
        lemma_split_framed(tail);
        if tail.len() > 0 {
            let r1 = tail[0];
            assert(rest == c + r1 + framed(tail.drop_first()));
            assert(rest[0] == 0 && rest[1] == 0 && rest[2] == 0 && rest[3] == 1);
        }
        lemma_scan_piece(r, rest);
        let sty = start_codes_from(rest, 0);
        let l: int = 4 + r.len() as int;
        lemma_start_codes_bounds(rest, 0);
        assert forall|i: int| 0 <= i < sty.len() implies #[trigger] sty[i] + l <= usize::MAX by {
            assert(code_at(rest, sty[i] as int));
        }
        assert forall|i: int| 0 <= i < rest.len() implies b[l + i] == #[trigger] rest[i] by {
            assert(b == (c + r) + rest);
            assert((c + r).len() == l);
        }
        lemma_nals_shift(b, rest, l, sty, 0);
        let stb = start_codes_from(b, 0);
        assert(stb == seq![1usize] + shift_by(sty, l));
        assert(stb[0] == 1);
        assert(b[4] == r[0]);
        let end: int = if 1 < stb.len() { stb[1] as int } else { b.len() as int };
        if 1 < stb.len() {
            assert(stb[1] == sty[0] + l);
        }
        assert(4 < end);
        let rest_nals = nals_from(b, stb, 1);
        assert(split_spec(b) == seq![(4usize, end as usize, nal_type_of(b[4]))] + rest_nals);
        assert(types_of(rest_nals) == types_of(split_spec(rest)));
        assert(types_of(split_spec(b)) =~= seq![nal_type_of(r[0])] + types_of(rest_nals));
        assert(types_of(split_spec(b)) =~= Seq::new(ps.len(), |i: int| nal_type_of(ps[i][0])));
    }
}


/// Every `00 00 01` at or after `i` is one of the scan's matches: two
/// matches cannot overlap.
proof fn lemma_codes_found(d: Seq<u8>, i: int, q: int)
    requires
        0 <= i <= q,
        code_at(d, q),
        d.len() <= usize::MAX,
    ensures
        exists|j: int| 0 <= j < start_codes_from(d, i).len() && start_codes_from(d, i)[j] == q,
    decreases q - i,
{
    let cur = start_codes_from(d, i);
    if code_at(d, i) {
        assert(cur == seq![i as usize] + start_codes_from(d, i + 3));
        if i == q {
            assert(cur[0] == q);
        } else {
            assert(q >= i + 3);
            lemma_codes_found(d, i + 3, q);
            let rest = start_codes_from(d, i + 3);
            let j = choose|j: int| 0 <= j < rest.len() && rest[j] == q;
            assert(cur == seq![i as usize] + rest);
            assert(cur[j + 1] == q);
        }
    } else {
        lemma_codes_found(d, i + 1, q);
        assert(cur == start_codes_from(d, i + 1));
    }
}

/// The scan's matches increase, at least three bytes apart.
proof fn lemma_codes_sorted(d: Seq<u8>, i: int)
    requires
        0 <= i,
        d.len() <= usize::MAX,
    ensures
        forall|a: int, b: int| 0 <= a < b < start_codes_from(d, i).len() ==>
            #[trigger] start_codes_from(d, i)[a] + 3 <= #[trigger] start_codes_from(d, i)[b],
    decreases d.len() - i,
{
    let cur = start_codes_from(d, i);
    if i + 2 < d.len() {
        if code_at(d, i) {
            lemma_codes_sorted(d, i + 3);
            lemma_start_codes_bounds(d, i + 3);
            let rest = start_codes_from(d, i + 3);
            assert(cur == seq![i as usize] + rest);
            assert forall|a: int, b: int| 0 <= a < b < cur.len() implies #[trigger] cur[a] + 3 <= #[trigger] cur[b] by {
                assert(cur[b] == rest[b - 1]);
                if a > 0 {
                    assert(cur[a] == rest[a - 1]);
                }
            }
        } else {
            lemma_codes_sorted(d, i + 1);
            assert(cur == start_codes_from(d, i + 1));
        }
    }
}

/// A NAL that the split reports: a non-empty range of the buffer, typed by
/// its first byte, with no start code inside it.
pub open spec fn well_cut(d: Seq<u8>, n: (usize, usize, u8)) -> bool {
    &&& n.0 < n.1 <= d.len()
    &&& n.2 == nal_type_of(d[n.0 as int])
    &&& clean(d.subrange(n.0 as int, n.1 as int))
}

proof fn lemma_nals_well_cut(d: Seq<u8>, k: int)
    requires
        0 <= k,
        d.len() <= usize::MAX,
    ensures
        forall|m: int| 0 <= m < nals_from(d, start_codes_from(d, 0), k).len() ==>
            well_cut(d, #[trigger] nals_from(d, start_codes_from(d, 0), k)[m]),
    decreases start_codes_from(d, 0).len() - k,
{
    let st = start_codes_from(d, 0);
    if k < st.len() {
        lemma_nals_well_cut(d, k + 1);
        lemma_start_codes_bounds(d, 0);
        lemma_codes_sorted(d, 0);
        let ds: int = st[k] + 3;
        let end: int = if k + 1 < st.len() { st[k + 1] as int } else { d.len() as int };
        let rest = nals_from(d, st, k + 1);
        if k + 1 < st.len() {
            assert(code_at(d, st[k + 1] as int));
        }
        if ds < d.len() && ds < end {
            let sub = d.subrange(ds, end);
            assert forall|q: int| !#[trigger] code_at(sub, q) by {
                if code_at(sub, q) {
                    assert(sub[q] == d[ds + q] && sub[q + 1] == d[ds + q + 1] && sub[q + 2] == d[ds + q + 2]);
                    assert(code_at(d, ds + q));
                    lemma_codes_found(d, 0, ds + q);
                    let j = choose|j: int| 0 <= j < st.len() && st[j] == ds + q;
                    if j <= k {
                        if j < k {
                            assert(st[j] + 3 <= st[k]);
                        }
                    } else if k + 1 < st.len() {
                        if j > k + 1 {
                            assert(st[k + 1] + 3 <= st[j]);
                        }
                    }
                }
            }
            let x = (ds as usize, end as usize, nal_type_of(d[ds]));
            assert(nals_from(d, st, k) == seq![x] + rest);
            assert forall|m: int| 0 <= m < nals_from(d, st, k).len() implies
                well_cut(d, #[trigger] nals_from(d, st, k)[m]) by {
                if m > 0 {
                    assert(nals_from(d, st, k)[m] == rest[m - 1]);
                }
            }
        } else {
            assert(nals_from(d, st, k) == rest);
        }
    }
}

/// Payloads of the parameter-set NALs of `nals`, in order.
pub open spec fn param_payloads(d: Seq<u8>, nals: Seq<(usize, usize, u8)>) -> Seq<Seq<u8>>
    decreases nals.len(),
{
    if nals.len() == 0 {
        Seq::empty()
    } else {
        let n = nals.last();
        let before = param_payloads(d, nals.drop_last());
        if is_param_set(n.2) { before.push(d.subrange(n.0 as int, n.1 as int)) } else { before }
    }
}

proof fn lemma_param_payloads(d: Seq<u8>, nals: Seq<(usize, usize, u8)>)
    requires
        forall|m: int| 0 <= m < nals.len() ==> well_cut(d, #[trigger] nals[m]),
    ensures
        param_set_bytes(d, nals) == framed_back(param_payloads(d, nals)),
        param_set_types(nals) == Seq::new(
            param_payloads(d, nals).len(),
            |i: int| nal_type_of(param_payloads(d, nals)[i][0]),
        ),
        forall|i: int| 0 <= i < param_payloads(d, nals).len() ==>
            (#[trigger] param_payloads(d, nals)[i]).len() > 0 && clean(param_payloads(d, nals)[i]),
    decreases nals.len(),
{
    if nals.len() > 0 {
        let init = nals.drop_last();
        assert forall|m: int| 0 <= m < init.len() implies well_cut(d, #[trigger] init[m]) by {
            assert(init[m] == nals[m]);
        }
        lemma_param_payloads(d, init);
        let n = nals.last();
        assert(well_cut(d, nals[nals.len() - 1]));
        let pb = param_payloads(d, init);
        if is_param_set(n.2) {
            let x = d.subrange(n.0 as int, n.1 as int);
            let pp = pb.push(x);
            assert(pp.drop_last() =~= pb);
            assert(pp.last() == x);
            assert(x[0] == d[n.0 as int]);
            assert(param_set_types(nals) =~= Seq::new(pp.len(), |i: int| nal_type_of(pp[i][0])));
            assert forall|i: int| 0 <= i < pp.len() implies (#[trigger] pp[i]).len() > 0 && clean(pp[i]) by {
                if i < pb.len() {
                    assert(pp[i] == pb[i]);
                }
            }
        }
    }
}

/// Splitting the buffer that [`extract_param_sets`] returns gives back one
/// NAL per parameter set it took, with exactly the types it reported, in
/// order: the extracted buffer is a well-formed Annex-B stream of its own.
pub proof fn lemma_extracted_param_sets_resplit(d: Seq<u8>)
    requires
        d.len() <= usize::MAX,
        param_set_bytes(d, split_spec(d)).len() <= usize::MAX,
    ensures
        types_of(split_spec(param_set_bytes(d, split_spec(d)))) == param_set_types(split_spec(d)),
{
    let nals = split_spec(d);
    lemma_nals_well_cut(d, 0);
    lemma_param_payloads(d, nals);
    let pp = param_payloads(d, nals);
    lemma_framed_back_front(pp);
    lemma_split_framed(pp);
}

} // verus!
