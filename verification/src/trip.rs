//! The trip record and the row form in which it is stored.
//!
//! All fields but `id` and `title` are optional; an absent text field is
//! stored as the empty string, an absent number as zero, and an absent
//! sequence as the empty list — the store keeps no true null marker.
//! A budget is held in cents, so that money never leaves integers.

use vstd::prelude::*;
use crate::listfmt::{encode_string_list, encoded_list};

verus! {

/// A trip record as the fixture data supplies it.
pub struct ITrip {
    pub id: String,
    pub title: String,
    pub description: Option<String>,
    pub image_url: Option<String>,
    pub start_date: Option<String>,
    pub end_date: Option<String>,
    pub days: Option<i32>,
    pub cities: Option<Vec<String>>,
    pub status: Option<String>,
    pub budget_cents: Option<u64>,
    pub currency: Option<String>,
    pub participants: Option<Vec<String>>,
    pub tags: Option<Vec<String>>,
    pub visibility: Option<String>,
}

/// The mathematical value of a trip record.
pub struct TripView {
    pub id: Seq<char>,
    pub title: Seq<char>,
    pub description: Option<Seq<char>>,
    pub image_url: Option<Seq<char>>,
    pub start_date: Option<Seq<char>>,
    pub end_date: Option<Seq<char>>,
    pub days: Option<i32>,
    pub cities: Option<Seq<Seq<char>>>,
    pub status: Option<Seq<char>>,
    pub budget_cents: Option<u64>,
    pub currency: Option<Seq<char>>,
    pub participants: Option<Seq<Seq<char>>>,
    pub tags: Option<Seq<Seq<char>>>,
    pub visibility: Option<Seq<char>>,
}

impl View for ITrip {
    type V = TripView;

    open spec fn view(&self) -> TripView {
        TripView {
            id: self.id@,
            title: self.title@,
            description: self.description.deep_view(),
            image_url: self.image_url.deep_view(),
            start_date: self.start_date.deep_view(),
            end_date: self.end_date.deep_view(),
            days: self.days,
            cities: self.cities.deep_view(),
            status: self.status.deep_view(),
            budget_cents: self.budget_cents,
            currency: self.currency.deep_view(),
            participants: self.participants.deep_view(),
            tags: self.tags.deep_view(),
            visibility: self.visibility.deep_view(),
        }
    }
}

/// One row of the trips table, each column in its stored form: sequences
/// already encoded as text.
pub struct Row {
    pub id: String,
    pub title: String,
    pub description: String,
    pub image_url: String,
    pub start_date: String,
    pub end_date: String,
    pub days: i32,
    pub cities: String,
    pub status: String,
    pub budget_cents: u64,
    pub currency: String,
    pub participants: String,
    pub tags: String,
    pub visibility: String,
}

/// The mathematical value of a stored row.
pub struct RowView {
    pub id: Seq<char>,
    pub title: Seq<char>,
    pub description: Seq<char>,
    pub image_url: Seq<char>,
    pub start_date: Seq<char>,
    pub end_date: Seq<char>,
    pub days: i32,
    pub cities: Seq<char>,
    pub status: Seq<char>,
    pub budget_cents: u64,
    pub currency: Seq<char>,
    pub participants: Seq<char>,
    pub tags: Seq<char>,
    pub visibility: Seq<char>,
}

impl View for Row {
    type V = RowView;

    open spec fn view(&self) -> RowView {
        RowView {
            id: self.id@,
            title: self.title@,
            description: self.description@,
            image_url: self.image_url@,
            start_date: self.start_date@,
            end_date: self.end_date@,
            days: self.days,
            cities: self.cities@,
            status: self.status@,
            budget_cents: self.budget_cents,
            currency: self.currency@,
            participants: self.participants@,
            tags: self.tags@,
            visibility: self.visibility@,
        }
    }
}

/// The stored value of an optional text field: absent persists as empty.
pub open spec fn stored_text(o: Option<Seq<char>>) -> Seq<char> {
    match o {
        Some(s) => s,
        None => Seq::empty(),
    }
}

/// The stored value of an optional sequence field: absent persists as the
/// encoded empty list.
pub open spec fn stored_seq(o: Option<Seq<Seq<char>>>) -> Seq<char> {
    match o {
        Some(l) => encoded_list(l),
        None => encoded_list(Seq::empty()),
    }
}

/// The stored value of an optional count: absent persists as zero.
pub open spec fn stored_i32(o: Option<i32>) -> i32 {
    match o {
        Some(n) => n,
        None => 0,
    }
}

/// The stored value of an optional amount: absent persists as zero.
pub open spec fn stored_u64(o: Option<u64>) -> u64 {
    match o {
        Some(n) => n,
        None => 0,
    }
}

/// The row that seeding the record `t` writes.
pub open spec fn stored_row(t: TripView) -> RowView {
    RowView {
        id: t.id,
        title: t.title,
        description: stored_text(t.description),
        image_url: stored_text(t.image_url),
        start_date: stored_text(t.start_date),
        end_date: stored_text(t.end_date),
        days: stored_i32(t.days),
        cities: stored_seq(t.cities),
        status: stored_text(t.status),
        budget_cents: stored_u64(t.budget_cents),
        currency: stored_text(t.currency),
        participants: stored_seq(t.participants),
        tags: stored_seq(t.tags),
        visibility: stored_text(t.visibility),
    }
}

fn text_field(o: &Option<String>) -> (r: String)
    ensures
        r@ == stored_text(o.deep_view()),
{
    match o {
        Some(s) => s.clone(),
        None => String::new(),
    }
}

fn seq_field(o: &Option<Vec<String>>) -> (r: String)
    ensures
        r@ == stored_seq(o.deep_view()),
{
    match o {
        Some(v) => encode_string_list(v),
        None => {
            let empty: Vec<String> = Vec::new();
            proof {
                assert(empty.deep_view() =~= Seq::<Seq<char>>::empty());
            }
            encode_string_list(&empty)
        },
    }
}

/// Builds the row that seeding `t` writes, with every absent field given
/// its stored default.
pub fn to_row(t: &ITrip) -> (r: Row)
    ensures
        r@ == stored_row(t@),
{
    Row {
        id: t.id.clone(),
        title: t.title.clone(),
        description: text_field(&t.description),
        image_url: text_field(&t.image_url),
        start_date: text_field(&t.start_date),
        end_date: text_field(&t.end_date),
        days: match t.days {
            Some(n) => n,
            None => 0,
        },
        cities: seq_field(&t.cities),
        status: text_field(&t.status),
        budget_cents: match t.budget_cents {
            Some(n) => n,
            None => 0,
        },
        currency: text_field(&t.currency),
        participants: seq_field(&t.participants),
        tags: seq_field(&t.tags),
        visibility: text_field(&t.visibility),
    }
}

} // verus!
