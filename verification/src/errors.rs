//! The error kinds of the loading routines. Each failure is terminal and
//! carries the operation context together with the store's diagnostic.

use vstd::prelude::*;
use vstd::string::StringExecFns;
use crate::numfmt::{dec_nat, format_u64};

verus! {

/// What went wrong.
pub enum SeedError {
    /// A schema statement was rejected; `index` names the failing
    /// statement.
    Schema { index: usize, detail: String },
    /// A record's upsert was rejected; `index` names the record.
    Write { index: usize, detail: String },
    /// The store file exists and could not be deleted. Its absence is
    /// never an error.
    Reset { detail: String },
    /// A sequence field failed to serialize.
    Serialization { detail: String },
}

/// The mathematical value of an error.
pub enum SeedErrorView {
    Schema { index: nat, detail: Seq<char> },
    Write { index: nat, detail: Seq<char> },
    Reset { detail: Seq<char> },
    Serialization { detail: Seq<char> },
}

impl View for SeedError {
    type V = SeedErrorView;

    open spec fn view(&self) -> SeedErrorView {
        match self {
            SeedError::Schema { index, detail } => SeedErrorView::Schema {
                index: *index as nat,
                detail: detail@,
            },
            SeedError::Write { index, detail } => SeedErrorView::Write {
                index: *index as nat,
                detail: detail@,
            },
            SeedError::Reset { detail } => SeedErrorView::Reset { detail: detail@ },
            SeedError::Serialization { detail } => SeedErrorView::Serialization {
                detail: detail@,
            },
        }
    }
}

/// The human-readable message: the operation context, then the index of
/// the failing statement or record where there is one, then the store's
/// diagnostic.
pub open spec fn message_of(e: SeedErrorView) -> Seq<char> {
    match e {
        SeedErrorView::Schema { index, detail } => "failed to run schema statement "@ + dec_nat(
            index,
        ) + ": "@ + detail,
        SeedErrorView::Write { index, detail } => "failed to insert record "@ + dec_nat(index)
            + ": "@ + detail,
        SeedErrorView::Reset { detail } => "failed to remove the store file: "@ + detail,
        SeedErrorView::Serialization { detail } => "failed to serialize a record: "@ + detail,
    }
}

impl SeedError {
    /// Renders the message.
    pub fn message(&self) -> (r: String)
        ensures
            r@ == message_of(self@),
    {
        match self {
            SeedError::Schema { index, detail } => {
                let mut s = String::from_str("failed to run schema statement ");
                let n = format_u64(*index as u64);
                s.append(n.as_str());
                s.append(": ");
                s.append(detail.as_str());
                proof {
                    assert(s@ =~= message_of(self@));
                }
                s
            },
            SeedError::Write { index, detail } => {
                let mut s = String::from_str("failed to insert record ");
                let n = format_u64(*index as u64);
                s.append(n.as_str());
                s.append(": ");
                s.append(detail.as_str());
                proof {
                    assert(s@ =~= message_of(self@));
                }
                s
            },
            SeedError::Reset { detail } => {
                let mut s = String::from_str("failed to remove the store file: ");
                s.append(detail.as_str());
                proof {
                    assert(s@ =~= message_of(self@));
                }
                s
            },
            SeedError::Serialization { detail } => {
                let mut s = String::from_str("failed to serialize a record: ");
                s.append(detail.as_str());
                proof {
                    assert(s@ =~= message_of(self@));
                }
                s
            },
        }
    }
}

} // verus!
