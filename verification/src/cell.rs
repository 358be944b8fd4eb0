//! The tree cell: the fundamental unit every value of this harness is
//! built from. A cell holds a byte string of bounded length and up to
//! four references to child cells. Its mathematical value is `CellVal`,
//! a tree of byte sequences.

use vstd::prelude::*;

verus! {

broadcast use vstd::seq::axiom_seq_index_decreases, vstd::std_specs::vec::group_vec_axioms;

/// Most data a cell may carry, in bytes.
pub const MAX_CELL_DATA: usize = 127;

/// Most child references a cell may carry.
pub const MAX_CELL_REFS: usize = 4;

/// The mathematical value of a cell: its bytes and its children's values.
#[verifier::ext_equal]
pub struct CellVal {
    pub data: Seq<u8>,
    pub refs: Seq<CellVal>,
}

/// An immutable tree node: byte content plus child references.
pub struct Cell {
    pub data: Vec<u8>,
    pub refs: Vec<Cell>,
}

/// The mathematical value of a cell.
pub open spec fn cell_view(c: Cell) -> CellVal
    decreases c, 1int,
{
    CellVal { data: c.data@, refs: views_of(c.refs@) }
}

/// The mathematical values of a sequence of cells, in order.
pub open spec fn views_of(rs: Seq<Cell>) -> Seq<CellVal>
    decreases rs, 0int,
{
    Seq::new(
        rs.len(),
        |i: int|
            if 0 <= i < rs.len() {
                cell_view(rs[i])
            } else {
                CellVal { data: Seq::empty(), refs: Seq::empty() }
            },
    )
}

impl View for Cell {
    type V = CellVal;

    open spec fn view(&self) -> CellVal {
        cell_view(*self)
    }
}

/// Well-formedness of a cell value: bounded content, bounded fan-out,
/// and every child well formed in turn.
pub open spec fn val_wf(v: CellVal) -> bool
    decreases v,
{
    &&& v.data.len() <= MAX_CELL_DATA
    &&& v.refs.len() <= MAX_CELL_REFS
    &&& forall|i: int| 0 <= i < v.refs.len() ==> val_wf(#[trigger] v.refs[i])
}

/// An empty cell value: no content, no references.
pub open spec fn empty_val() -> CellVal {
    CellVal { data: Seq::empty(), refs: Seq::empty() }
}

impl Cell {
    /// An empty cell: no content, no references.
    pub fn empty() -> (c: Cell)
        ensures
            c@ == empty_val(),
            val_wf(c@),
    {
        let c = Cell { data: Vec::new(), refs: Vec::new() };
        proof {
            assert(c.refs@.len() == 0);
            assert(c@.refs.len() == 0);
            assert(c@.refs =~= empty_val().refs);
            assert(c@.data =~= empty_val().data);
            assert(c@ =~= empty_val());
        }
        c
    }

    /// A leaf cell holding the given bytes and no references.
    pub fn leaf(data: Vec<u8>) -> (c: Cell)
        requires
            data@.len() <= MAX_CELL_DATA,
        ensures
            c@ == (CellVal { data: data@, refs: Seq::empty() }),
            val_wf(c@),
    {
        let c = Cell { data, refs: Vec::new() };
        proof {
            assert(c@.refs.len() == 0);
            assert(c@.refs =~= Seq::<CellVal>::empty());
            assert(c@ =~= CellVal { data: c.data@, refs: Seq::empty() });
        }
        c
    }

    /// A structurally identical copy of this cell tree.
    pub fn duplicate(&self) -> (c: Cell)
        ensures
            c@ == self@,
        decreases *self,
    {
        let mut data: Vec<u8> = Vec::new();
        data.extend_from_slice(self.data.as_slice());
        let mut refs: Vec<Cell> = Vec::new();
        let mut i: usize = 0;
        let n = self.refs.len();
        while i < n
            invariant
                n == self.refs@.len(),
                i <= n,
                refs@.len() == i,
                forall|j: int| 0 <= j < i ==> #[trigger] refs@[j]@ == self.refs@[j]@,
            decreases n - i,
        {
            let child = self.refs[i].duplicate();
            refs.push(child);
            i += 1;
        }
        let c = Cell { data, refs };
        proof {
            assert(c@.refs.len() == self@.refs.len());
            assert forall|j: int| 0 <= j < n implies c@.refs[j] == #[trigger] self@.refs[j] by {
                assert(c@.refs[j] == refs@[j]@);
                assert(self@.refs[j] == self.refs@[j]@);
            }
            assert(c@.refs =~= self@.refs);
            assert(c@ =~= self@);
        }
        c
    }

    /// Decides well-formedness of this cell tree.
    pub fn is_well_formed(&self) -> (r: bool)
        ensures
            r == val_wf(self@),
        decreases *self,
    {
        if self.data.len() > MAX_CELL_DATA {
            return false;
        }
        if self.refs.len() > MAX_CELL_REFS {
            return false;
        }
        let n = self.refs.len();
        let mut i: usize = 0;
        while i < n
            invariant
                n == self.refs@.len(),
                i <= n,
                forall|t: int| 0 <= t < i ==> val_wf(#[trigger] self.refs@[t]@),
            decreases n - i,
        {
            if !self.refs[i].is_well_formed() {
                proof {
                    assert(self@.refs[i as int] == self.refs@[i as int]@);
                    assert(!val_wf(self@.refs[i as int]));
                }
                return false;
            }
            i += 1;
        }
        proof {
            assert forall|t: int| 0 <= t < self@.refs.len() implies val_wf(
                #[trigger] self@.refs[t],
            ) by {
                assert(self@.refs[t] == self.refs@[t]@);
            }
        }
        true
    }

    /// Decides structural equality of two cell trees.
    pub fn same_as(&self, other: &Cell) -> (r: bool)
        ensures
            r == (self@ == other@),
        decreases *self,
    {
        if self.data.len() != other.data.len() {
            proof {
                assert(self@.data.len() != other@.data.len());
            }
            return false;
        }
        let mut j: usize = 0;
        let dlen = self.data.len();
        while j < dlen
            invariant
                dlen == self.data@.len() == other.data@.len(),
                j <= dlen,
                forall|t: int| 0 <= t < j ==> self.data@[t] == other.data@[t],
            decreases dlen - j,
        {
            if self.data[j] != other.data[j] {
                proof {
                    assert(self@.data[j as int] != other@.data[j as int]);
                }
                return false;
            }
            j += 1;
        }
        if self.refs.len() != other.refs.len() {
            proof {
                assert(self@.refs.len() != other@.refs.len());
            }
            return false;
        }
        let n = self.refs.len();
        let mut i: usize = 0;
        while i < n
            invariant
                n == self.refs@.len() == other.refs@.len(),
                i <= n,
                forall|t: int| 0 <= t < i ==> #[trigger] self.refs@[t]@ == other.refs@[t]@,
            decreases n - i,
        {
            if !self.refs[i].same_as(&other.refs[i]) {
                proof {
                    assert(self@.refs[i as int] != other@.refs[i as int]);
                }
                return false;
            }
            i += 1;
        }
        proof {
            assert(self@.data =~= other@.data);
            assert forall|t: int| 0 <= t < n implies self@.refs[t] == #[trigger] other@.refs[t] by {
                assert(self@.refs[t] == self.refs@[t]@);
                assert(other@.refs[t] == other.refs@[t]@);
            }
            assert(self@.refs =~= other@.refs);
            assert(self@ =~= other@);
        }
        true
    }

    /// Appends one child reference.
    pub fn push_ref(&mut self, child: Cell)
        requires
            old(self)@.refs.len() < MAX_CELL_REFS,
        ensures
            final(self)@.data == old(self)@.data,
            final(self)@.refs == old(self)@.refs.push(child@),
    {
        self.refs.push(child);
        proof {
            assert(self@.refs =~= old(self)@.refs.push(child@));
        }
    }
}

} // verus!
