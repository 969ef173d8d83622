use vstd::prelude::*;
use crate::field::{FieldElement, encode, encode_spec};

verus! {

/// A dense matrix of field elements: an ordered sequence of rows.
#[derive(Clone, Debug)]
pub struct Matrix {
    pub rows: Vec<Vec<FieldElement>>,
}

impl Matrix {
    /// The canonical values of the entries, row by row.
    pub open spec fn vals(self) -> Seq<Seq<nat>> {
        self.rows@.map_values(|r: Vec<FieldElement>| r@.map_values(|e: FieldElement| e.value()))
    }

    /// Every entry is canonical.
    pub open spec fn entries_wf(self) -> bool {
        forall|i: int, k: int|
            0 <= i < self.rows@.len() && 0 <= k < self.rows@[i]@.len()
                ==> (#[trigger] self.rows@[i]@[k]).wf()
    }

    /// Build a matrix by encoding every signed 64-bit entry as a field
    /// element.
    pub fn from_i64(entries: &Vec<Vec<i64>>) -> (r: Matrix)
        ensures
            r.vals().len() == entries@.len(),
            forall|i: int|
                0 <= i < entries@.len() ==> (#[trigger] r.vals()[i]).len() == entries@[i]@.len(),
            forall|i: int, k: int|
                0 <= i < entries@.len() && 0 <= k < entries@[i]@.len() ==> #[trigger] r.vals()[i][k]
                    == encode_spec(entries@[i]@[k] as int),
            r.entries_wf(),
    {
        let mut rows: Vec<Vec<FieldElement>> = Vec::new();
        let mut i: usize = 0;
        while i < entries.len()
            invariant
                0 <= i <= entries@.len(),
                rows@.len() == i,
                forall|i0: int|
                    0 <= i0 < i ==> (#[trigger] rows@[i0]@).len() == entries@[i0]@.len(),
                forall|i0: int, k0: int|
                    0 <= i0 < i && 0 <= k0 < entries@[i0]@.len()
                        ==> (#[trigger] rows@[i0]@[k0]).value() == encode_spec(
                        entries@[i0]@[k0] as int,
                    ) && rows@[i0]@[k0].wf(),
            decreases entries@.len() - i,
        {
            let src = &entries[i];
            let mut row: Vec<FieldElement> = Vec::new();
            let mut k: usize = 0;
            while k < src.len()
                invariant
                    0 <= k <= src@.len(),
                    row@.len() == k,
                    forall|k0: int|
                        0 <= k0 < k ==> (#[trigger] row@[k0]).value() == encode_spec(
                            src@[k0] as int,
                        ) && row@[k0].wf(),
                decreases src@.len() - k,
            {
                row.push(encode(src[k]));
                k = k + 1;
            }
            rows.push(row);
            i = i + 1;
        }
        Matrix { rows }
    }
}

} // verus!
