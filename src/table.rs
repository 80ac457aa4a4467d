use vstd::prelude::*;

verus! {

/// One row ready for display: its 1-based serial number and its fields.
pub struct TableRow<'a> {
    pub serial_number: usize,
    pub cells: &'a [String],
}

impl<'a> TableRow<'a> {
    pub fn new(serial_number: usize, cells: &'a [String]) -> (r: Self)
        ensures
            r.serial_number == serial_number,
            r.cells@ == cells@,
    {
        TableRow { serial_number, cells }
    }

    /// The text of each field.
    pub open spec fn cells_view(&self) -> Seq<Seq<char>> {
        self.cells@.map_values(|f: String| f@)
    }
}

} // verus!
