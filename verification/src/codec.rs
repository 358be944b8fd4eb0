//! The canonical byte form of a cell tree, with a serializer and a
//! parser. The parser's contract guarantees that whatever it accepts
//! re-serializes to exactly the bytes it consumed, which is what makes
//! a load-then-save of a persisted image an identity on the file.

use vstd::prelude::*;
use crate::cell::{Cell, CellVal, val_wf, views_of, MAX_CELL_DATA, MAX_CELL_REFS};

verus! {

broadcast use vstd::seq::axiom_seq_index_decreases, vstd::std_specs::vec::group_vec_axioms;

/// The byte form of the first `n` children of a cell, concatenated in order.
pub open spec fn refs_bytes(rs: Seq<CellVal>, n: int) -> Seq<u8>
    decreases rs, n,
{
    if n <= 0 || n > rs.len() {
        Seq::empty()
    } else {
        refs_bytes(rs, n - 1) + cell_bytes(rs[n - 1])
    }
}

/// The canonical byte form of a cell: one byte of content length, the
/// content, one byte of reference count, then each child in order.
pub open spec fn cell_bytes(v: CellVal) -> Seq<u8>
    decreases v, 0int,
{
    seq![v.data.len() as u8] + v.data + seq![v.refs.len() as u8] + refs_bytes(
        v.refs,
        v.refs.len() as int,
    )
}

/// Whether the byte form of `v` stands at `pos` in `b`.
pub open spec fn encodes_at(v: CellVal, b: Seq<u8>, pos: int) -> bool {
    &&& 0 <= pos
    &&& pos + cell_bytes(v).len() <= b.len()
    &&& b.subrange(pos, pos + cell_bytes(v).len() as int) == cell_bytes(v)
}

/// The byte form of the first `k` children is a prefix of the byte form
/// of the first `n`, for `k <= n`.
proof fn lemma_refs_bytes_prefix_of(rs: Seq<CellVal>, k: int, n: int)
    requires
        0 <= k <= n <= rs.len(),
    ensures
        refs_bytes(rs, k).len() <= refs_bytes(rs, n).len(),
        refs_bytes(rs, k) == refs_bytes(rs, n).subrange(0, refs_bytes(rs, k).len() as int),
    decreases n - k,
{
    if k < n {
        lemma_refs_bytes_prefix_of(rs, k + 1, n);
        assert(refs_bytes(rs, k + 1) == refs_bytes(rs, k) + cell_bytes(rs[k]));
        assert(refs_bytes(rs, k) =~= refs_bytes(rs, n).subrange(0, refs_bytes(rs, k).len() as int));
    } else {
        assert(refs_bytes(rs, k) =~= refs_bytes(rs, n).subrange(0, refs_bytes(rs, k).len() as int));
    }
}

/// The byte form of the first `n` children reads only those children.
proof fn lemma_refs_bytes_prefix(rs1: Seq<CellVal>, rs2: Seq<CellVal>, n: int)
    requires
        n <= rs1.len(),
        n <= rs2.len(),
        forall|i: int| 0 <= i < n ==> rs1[i] == rs2[i],
    ensures
        refs_bytes(rs1, n) == refs_bytes(rs2, n),
    decreases n,
{
    if 0 < n {
        lemma_refs_bytes_prefix(rs1, rs2, n - 1);
    }
}

/// What bytes pin down about a well-formed value whose byte form stands
/// at `pos`: the leading byte spells its content length, the content
/// follows, the next byte spells its reference count, and the children's
/// combined byte form fills the rest.
proof fn lemma_encoding_header(v: CellVal, b: Seq<u8>, pos: int)
    requires
        val_wf(v),
        encodes_at(v, b, pos),
    ensures
        cell_bytes(v).len() == 2 + v.data.len() + refs_bytes(v.refs, v.refs.len() as int).len(),
        pos + 2 + v.data.len() <= b.len(),
        b[pos] == v.data.len() as u8,
        v.data == b.subrange(pos + 1, pos + 1 + v.data.len()),
        b[pos + 1 + v.data.len()] == v.refs.len() as u8,
        refs_bytes(v.refs, v.refs.len() as int) == b.subrange(
            pos + 2 + v.data.len(),
            pos + cell_bytes(v).len(),
        ),
{
    let w = cell_bytes(v);
    let dl = v.data.len() as int;
    assert forall|i: int| 0 <= i < w.len() implies b[pos + i] == w[i] by {
        assert(b.subrange(pos, pos + w.len() as int)[i] == b[pos + i]);
    }
    assert(w[0] == v.data.len() as u8);
    assert forall|i: int| 0 <= i < dl implies w[1 + i] == v.data[i] by {
        assert((seq![v.data.len() as u8] + v.data)[1 + i] == v.data[i]);
    }
    assert(v.data =~= b.subrange(pos + 1, pos + 1 + dl));
    assert(w[1 + dl] == v.refs.len() as u8);
    let rb = refs_bytes(v.refs, v.refs.len() as int);
    assert forall|i: int| 0 <= i < rb.len() implies w[2 + dl + i] == rb[i] by {
        assert((seq![v.data.len() as u8] + v.data + seq![v.refs.len() as u8] + rb)[2 + dl + i]
            == rb[i]);
    }
    assert(rb =~= b.subrange(pos + 2 + dl, pos + w.len() as int));
}

/// Where the `k`-th child's byte form stands: right after the header and
/// the byte forms of the children before it.
proof fn lemma_child_at(v: CellVal, b: Seq<u8>, pos: int, k: int)
    requires
        val_wf(v),
        encodes_at(v, b, pos),
        0 <= k < v.refs.len(),
    ensures
        val_wf(v.refs[k]),
        encodes_at(v.refs[k], b, pos + 2 + v.data.len() + refs_bytes(v.refs, k).len()),
{
    lemma_encoding_header(v, b, pos);
    let n = v.refs.len() as int;
    let dl = v.data.len() as int;
    let rb = refs_bytes(v.refs, n);
    let lk = refs_bytes(v.refs, k).len() as int;
    let ck = cell_bytes(v.refs[k]);
    lemma_refs_bytes_prefix_of(v.refs, k, n);
    lemma_refs_bytes_prefix_of(v.refs, k + 1, n);
    assert(refs_bytes(v.refs, k + 1) == refs_bytes(v.refs, k) + ck);
    assert forall|i: int| 0 <= i < ck.len() implies rb[lk + i] == ck[i] by {
        assert(refs_bytes(v.refs, k + 1)[lk + i] == ck[i]);
        assert(refs_bytes(v.refs, k + 1)[lk + i] == rb.subrange(
            0,
            refs_bytes(v.refs, k + 1).len() as int,
        )[lk + i]);
    }
    let cpos = pos + 2 + dl + lk;
    assert forall|i: int| 0 <= i < ck.len() implies b[cpos + i] == ck[i] by {
        assert(rb[lk + i] == b.subrange(pos + 2 + dl, pos + cell_bytes(v).len() as int)[lk + i]);
    }
    assert(ck =~= b.subrange(cpos, cpos + ck.len() as int));
}

/// Appends the canonical byte form of `c` to `out`.
pub fn serialize_cell(c: &Cell, out: &mut Vec<u8>)
    requires
        val_wf(c@),
    ensures
        final(out)@ == old(out)@ + cell_bytes(c@),
    decreases *c,
{
    let ghost prefix = out@ + seq![c@.data.len() as u8] + c@.data + seq![c@.refs.len() as u8];
    out.push(c.data.len() as u8);
    out.extend_from_slice(c.data.as_slice());
    out.push(c.refs.len() as u8);
    assert(out@ =~= prefix);
    let n = c.refs.len();
    let mut i: usize = 0;
    while i < n
        invariant
            n == c.refs@.len(),
            val_wf(c@),
            i <= n,
            out@ == prefix + refs_bytes(c@.refs, i as int),
        decreases n - i,
    {
        assert(c.refs@[i as int]@ == c@.refs[i as int]);
        serialize_cell(&c.refs[i], out);
        i += 1;
    }
    assert(out@ =~= old(out)@ + cell_bytes(c@));
}

/// Reads one cell starting at `pos`. On success the returned end
/// position is past `pos`, the cell is well formed, and the consumed
/// bytes are exactly the cell's canonical byte form; moreover the cell
/// is the one well-formed value whose byte form stands at `pos`, so the
/// reader is deterministic. On failure no well-formed value's byte form
/// stands at `pos` at all: whatever the serializer wrote is read back.
pub fn parse_cell(bytes: &Vec<u8>, pos: usize) -> (r: Option<(Cell, usize)>)
    ensures
        r matches Some((c, end)) ==> {
            &&& pos < end <= bytes@.len()
            &&& val_wf(c@)
            &&& cell_bytes(c@) == bytes@.subrange(pos as int, end as int)
            &&& forall|v: CellVal|
                val_wf(v) && #[trigger] encodes_at(v, bytes@, pos as int) ==> v == c@ && pos
                    + cell_bytes(v).len() == end
        },
        r is None ==> forall|v: CellVal|
            val_wf(v) ==> !#[trigger] encodes_at(v, bytes@, pos as int),
    decreases bytes@.len() - pos,
{
    if pos >= bytes.len() || bytes.len() - pos < 2 {
        proof {
            assert forall|v: CellVal| val_wf(v) implies !#[trigger] encodes_at(
                v,
                bytes@,
                pos as int,
            ) by {
                if encodes_at(v, bytes@, pos as int) {
                    lemma_encoding_header(v, bytes@, pos as int);
                }
            }
        }
        return None;
    }
    let dlen = bytes[pos] as usize;
    if dlen > MAX_CELL_DATA {
        proof {
            assert forall|v: CellVal| val_wf(v) implies !#[trigger] encodes_at(
                v,
                bytes@,
                pos as int,
            ) by {
                if encodes_at(v, bytes@, pos as int) {
                    lemma_encoding_header(v, bytes@, pos as int);
                }
            }
        }
        return None;
    }
    if bytes.len() - pos - 2 < dlen {
        proof {
            assert forall|v: CellVal| val_wf(v) implies !#[trigger] encodes_at(
                v,
                bytes@,
                pos as int,
            ) by {
                if encodes_at(v, bytes@, pos as int) {
                    lemma_encoding_header(v, bytes@, pos as int);
                }
            }
        }
        return None;
    }
    let mut data: Vec<u8> = Vec::new();
    let mut j: usize = 0;
    while j < dlen
        invariant
            bytes@.len() <= usize::MAX,
            pos + 2 + dlen <= bytes@.len(),
            j <= dlen,
            data@ == bytes@.subrange(pos + 1, pos + 1 + j),
        decreases dlen - j,
    {
        data.push(bytes[pos + 1 + j]);
        assert(data@ =~= bytes@.subrange(pos + 1, pos + 1 + (j + 1)));
        j += 1;
    }
    let nrefs = bytes[pos + 1 + dlen] as usize;
    if nrefs > MAX_CELL_REFS {
        proof {
            assert forall|v: CellVal| val_wf(v) implies !#[trigger] encodes_at(
                v,
                bytes@,
                pos as int,
            ) by {
                if encodes_at(v, bytes@, pos as int) {
                    lemma_encoding_header(v, bytes@, pos as int);
                }
            }
        }
        return None;
    }
    proof {
        assert forall|v: CellVal|
            val_wf(v) && #[trigger] encodes_at(v, bytes@, pos as int) implies v.data.len() == dlen
                && v.refs.len() == nrefs && pos + 2 + dlen + refs_bytes(v.refs, 0).len()
                == pos + 2 + dlen by {
            lemma_encoding_header(v, bytes@, pos as int);
        }
    }
    let mut refs: Vec<Cell> = Vec::new();
    let mut cur: usize = pos + 2 + dlen;
    let mut k: usize = 0;
    while k < nrefs
        invariant
            bytes@.len() <= usize::MAX,
            pos + 2 + dlen <= cur <= bytes@.len(),
            dlen == bytes@[pos as int] as usize,
            k <= nrefs,
            refs@.len() == k,
            forall|i: int| 0 <= i < k ==> val_wf(#[trigger] views_of(refs@)[i]),
            refs_bytes(views_of(refs@), k as int) == bytes@.subrange(pos + 2 + dlen, cur as int),
            forall|v: CellVal|
                val_wf(v) && #[trigger] encodes_at(v, bytes@, pos as int) ==> {
                    &&& v.data.len() == dlen
                    &&& v.refs.len() == nrefs
                    &&& pos + 2 + dlen + refs_bytes(v.refs, k as int).len() == cur
                    &&& forall|i: int| 0 <= i < k ==> v.refs[i] == #[trigger] views_of(refs@)[i]
                },
        decreases nrefs - k,
    {
        match parse_cell(bytes, cur) {
            None => {
                proof {
                    assert forall|v: CellVal| val_wf(v) implies !#[trigger] encodes_at(
                        v,
                        bytes@,
                        pos as int,
                    ) by {
                        if encodes_at(v, bytes@, pos as int) {
                            lemma_child_at(v, bytes@, pos as int, k as int);
                            assert(encodes_at(v.refs[k as int], bytes@, cur as int));
                        }
                    }
                }
                return None;
            },
            Some((child, end)) => {
                let ghost old_refs = refs@;
                let ghost old_cur = cur as int;
                refs.push(child);
                proof {
                    assert forall|i: int|
                        0 <= i < k implies views_of(refs@)[i] == #[trigger] views_of(old_refs)[i] by {
                        assert(refs@[i] == old_refs[i]);
                    }
                    lemma_refs_bytes_prefix(views_of(old_refs), views_of(refs@), k as int);
                    assert(views_of(refs@)[k as int] == child@);
                    assert forall|i: int| 0 <= i < k + 1 implies val_wf(
                        #[trigger] views_of(refs@)[i],
                    ) by {
                        if i < k {
                            assert(views_of(refs@)[i] == views_of(old_refs)[i]);
                            assert(val_wf(views_of(old_refs)[i]));
                        } else {
                            assert(views_of(refs@)[i] == child@);
                        }
                    }
                    assert(refs_bytes(views_of(refs@), k + 1int) =~= bytes@.subrange(
                        pos + 2 + dlen,
                        end as int,
                    ));
                    assert forall|v: CellVal|
                        val_wf(v) && #[trigger] encodes_at(v, bytes@, pos as int) implies {
                        &&& pos + 2 + dlen + refs_bytes(v.refs, k + 1int).len() == end
                        &&& forall|i: int| 0 <= i < k + 1 ==> v.refs[i] == #[trigger] views_of(
                            refs@,
                        )[i]
                    } by {
                        lemma_child_at(v, bytes@, pos as int, k as int);
                        assert(encodes_at(v.refs[k as int], bytes@, old_cur));
                        assert(v.refs[k as int] == child@ && old_cur + cell_bytes(
                            v.refs[k as int],
                        ).len() == end);
                        assert(refs_bytes(v.refs, k + 1int) == refs_bytes(v.refs, k as int)
                            + cell_bytes(v.refs[k as int]));
                        assert forall|i: int| 0 <= i < k + 1 implies v.refs[i]
                            == #[trigger] views_of(refs@)[i] by {
                            if i < k {
                                assert(v.refs[i] == views_of(old_refs)[i]);
                            } else {
                                assert(views_of(refs@)[k as int] == child@);
                            }
                        }
                    }
                }
                cur = end;
                k += 1;
            },
        }
    }
    let c = Cell { data, refs };
    proof {
        assert(c@.data.len() == dlen);
        assert(c@.refs == views_of(refs@));
        assert(c@.refs.len() == nrefs);
        assert(cell_bytes(c@) =~= bytes@.subrange(pos as int, cur as int));
        assert forall|v: CellVal|
            val_wf(v) && #[trigger] encodes_at(v, bytes@, pos as int) implies v == c@ && pos
                + cell_bytes(v).len() == cur by {
            lemma_encoding_header(v, bytes@, pos as int);
            assert(v.data =~= bytes@.subrange(pos + 1, pos + 1 + dlen));
            assert(v.data =~= c@.data);
            assert forall|i: int| 0 <= i < nrefs implies v.refs[i] == #[trigger] c@.refs[i] by {
                assert(v.refs[i] == views_of(refs@)[i]);
            }
            assert(v.refs =~= c@.refs);
            assert(v =~= c@);
            assert(cell_bytes(v).len() == 2 + dlen + refs_bytes(v.refs, nrefs as int).len());
        }
    }
    Some((c, cur))
}

} // verus!
