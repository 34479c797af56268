//! The canonical in-memory representation of tabular data.

use vstd::prelude::*;

verus! {

/// A representation of parsed CSV file content: an ordered header of
/// column names and ordered rows of string cells.
///
/// The CSV parser only constructs tables in which every row's length
/// equals the header's length; a table built from untrusted JSON may
/// violate that, and the CSV serializer does not assume it.
#[derive(Debug, Clone)]
pub struct CSVData {
    /// The header columns, in column order.
    pub header: Vec<String>,
    /// All data rows, in input order.
    pub rows: Vec<Vec<String>>,
}

impl CSVData {
    /// The header as a mathematical sequence of character sequences.
    pub open spec fn hdr(&self) -> Seq<Seq<char>> {
        self.header.deep_view()
    }

    /// The rows as a mathematical sequence of rows of character sequences.
    pub open spec fn rws(&self) -> Seq<Seq<Seq<char>>> {
        self.rows.deep_view()
    }

    /// Every row's length equals the header's length.
    pub open spec fn well_formed(&self) -> bool {
        forall|i: int| 0 <= i < self.rws().len() ==> (#[trigger] self.rws()[i]).len()
            == self.hdr().len()
    }
}

impl Default for CSVData {
    /// The empty table: no columns, no rows.
    fn default() -> (r: Self)
        ensures
            r.hdr() =~= Seq::<Seq<char>>::empty(),
            r.rws() =~= Seq::<Seq<Seq<char>>>::empty(),
    {
        CSVData { header: Vec::new(), rows: Vec::new() }
    }
}

} // verus!
