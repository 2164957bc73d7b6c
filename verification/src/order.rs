//! Chronological order of `DateTime`: the lexicographic order of
//! (year, month, day, hour, minute, second).

use vstd::prelude::*;
use core::cmp::Ordering;
use vstd::std_specs::cmp::PartialOrdSpecImpl;
use crate::datetime::DateTime;
use crate::model::{lemma_anchor_injective, lemma_anchor_order, lex_lt, DateModel};

verus! {

/// Three-way lexicographic comparison of two models.
pub open spec fn lex_order(a: DateModel, b: DateModel) -> Option<Ordering> {
    if lex_lt(a, b) {
        Some(Ordering::Less)
    } else if a == b {
        Some(Ordering::Equal)
    } else {
        Some(Ordering::Greater)
    }
}

/// Compares two fields of the same rank.
fn field_order(a: i64, b: i64) -> (r: Ordering)
    ensures
        r == (if a < b {
            Ordering::Less
        } else if a == b {
            Ordering::Equal
        } else {
            Ordering::Greater
        }),
{
    if a < b {
        Ordering::Less
    } else if a == b {
        Ordering::Equal
    } else {
        Ordering::Greater
    }
}

impl PartialOrd for DateTime {
    fn partial_cmp(&self, other: &Self) -> (r: Option<Ordering>) {
        proof {
            self.lemma_view_fields();
            other.lemma_view_fields();
        }
        match field_order(self.year, other.year) {
            Ordering::Equal => {},
            found => {
                return Some(found);
            },
        }
        match field_order(self.month, other.month) {
            Ordering::Equal => {},
            found => {
                return Some(found);
            },
        }
        match field_order(self.day, other.day) {
            Ordering::Equal => {},
            found => {
                return Some(found);
            },
        }
        match field_order(self.hour, other.hour) {
            Ordering::Equal => {},
            found => {
                return Some(found);
            },
        }
        match field_order(self.minute, other.minute) {
            Ordering::Equal => {},
            found => {
                return Some(found);
            },
        }
        Some(field_order(self.second, other.second))
    }
}

impl PartialOrdSpecImpl for DateTime {
    open spec fn obeys_partial_cmp_spec() -> bool {
        true
    }

    open spec fn partial_cmp_spec(&self, other: &Self) -> Option<Ordering> {
        lex_order(self@, other@)
    }
}

/// The order of dates is chronological: one date is less than another
/// exactly when its anchor is smaller, and equal exactly when it is the same.
pub proof fn law_order_is_chronological(a: DateModel, b: DateModel)
    requires
        a.valid(),
        b.valid(),
    ensures
        lex_order(a, b) == Some(Ordering::Less) <==> a.anchor() < b.anchor(),
        lex_order(a, b) == Some(Ordering::Equal) <==> a == b,
        lex_order(a, b) == Some(Ordering::Greater) <==> a.anchor() > b.anchor(),
{
    lemma_anchor_order(a, b);
    lemma_anchor_order(b, a);
    if a.anchor() == b.anchor() {
        lemma_anchor_injective(a, b);
    }
}

} // verus!
