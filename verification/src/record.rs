//! Block records as delivered by the remote feed, and the rows the store
//! persists for them.
//!
//! A record is persisted only if it carries both range endpoints and its
//! range start is not the all-zero 4-byte address; the endpoints are stored
//! hexadecimal-encoded.

use vstd::prelude::*;
use crate::addr::Addr;
use crate::addr::hex_str_of;

verus! {

/// One entry of the remote feed: identifier, creation timestamp, expiry, and
/// an optional inclusive address range.
pub struct Record {
    pub id: u64,
    pub timestamp: String,
    pub expiry: String,
    pub range_start: Option<Addr>,
    pub range_end: Option<Addr>,
}

/// One persisted row: the record's scalar fields with the range endpoints
/// rendered as fixed-width uppercase hexadecimal.
pub struct Row {
    pub id: u64,
    pub timestamp: String,
    pub expiry: String,
    pub range_start: String,
    pub range_end: String,
}

/// The mathematical model of a persisted row.
pub ghost struct AbsRow {
    pub id: u64,
    pub timestamp: Seq<char>,
    pub expiry: Seq<char>,
    pub range_start: Seq<char>,
    pub range_end: Seq<char>,
}

impl View for Row {
    type V = AbsRow;

    open spec fn view(&self) -> AbsRow {
        AbsRow {
            id: self.id,
            timestamp: self.timestamp@,
            expiry: self.expiry@,
            range_start: self.range_start@,
            range_end: self.range_end@,
        }
    }
}

impl Record {
    /// Any address the record carries belongs to one of the two families.
    pub open spec fn wf(&self) -> bool {
        &&& (self.range_start matches Some(a) ==> a.wf())
        &&& (self.range_end matches Some(a) ==> a.wf())
    }

    /// A record is in scope for the store exactly when it carries both range
    /// endpoints and its range start is not the all-zero 4-byte address.
    pub open spec fn in_scope(&self) -> bool {
        &&& self.range_start is Some
        &&& self.range_end is Some
        &&& !self.range_start->0.is_zero_v4()
    }

    /// The row an in-scope record is persisted as.
    pub open spec fn spec_row(&self) -> AbsRow
        recommends
            self.in_scope(),
    {
        AbsRow {
            id: self.id,
            timestamp: self.timestamp@,
            expiry: self.expiry@,
            range_start: hex_str_of(self.range_start->0.bytes@),
            range_end: hex_str_of(self.range_end->0.bytes@),
        }
    }

    /// Applies the drop filters and renders the row to persist.
    ///
    /// Returns `None` exactly for the records that are out of scope: those
    /// without a full address range, and those whose range start is the
    /// all-zero 4-byte address.
    pub fn to_row(&self) -> (r: Option<Row>)
        requires
            self.wf(),
        ensures
            r is Some <==> self.in_scope(),
            r matches Some(row) ==> row@ == self.spec_row(),
    {
        match (&self.range_start, &self.range_end) {
            (Some(rs), Some(re)) => {
                if rs.is_zero_v4_exec() {
                    None
                } else {
                    Some(
                        Row {
                            id: self.id,
                            timestamp: self.timestamp.clone(),
                            expiry: self.expiry.clone(),
                            range_start: rs.encode(),
                            range_end: re.encode(),
                        },
                    )
                }
            },
            _ => None,
        }
    }
}

} // verus!
