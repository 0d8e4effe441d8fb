//! Expansion of an inclusive date range into the ordered list of bookable
//! weekdays it contains, written in their `YYYY-MM-DD` form.

use crate::date::{
    lemma_day_index_injective, lemma_day_index_le_last, lemma_next_day_index, Date,
};
use crate::date_text::{date_of_text, date_text, format_date, lemma_date_text_round_trip};
use vstd::prelude::*;

verus! {

/// A rejected period: its end precedes its start.
#[derive(Clone, Copy, Debug, PartialEq, Eq, Structural)]
pub struct RangeError {}

/// An inclusive period of calendar days. Well-formed values run forward:
/// the end does not precede the start.
#[derive(Clone, Copy, Debug, PartialEq, Eq, Structural)]
pub struct DateRange {
    pub from: Date,
    pub to: Date,
}

impl DateRange {
    /// Both endpoints name days and the end does not precede the start.
    pub open spec fn wf(self) -> bool {
        self.from.valid() && self.to.valid() && self.from.day_index() <= self.to.day_index()
    }

    /// The period from `from` through `to`, or [`RangeError`] where `to`
    /// precedes `from`.
    pub fn new(from: Date, to: Date) -> (r: Result<DateRange, RangeError>)
        requires
            from.valid(),
            to.valid(),
        ensures
            match r {
                Ok(dr) => dr == (DateRange { from, to }) && dr.wf(),
                Err(_) => to.day_index() < from.day_index(),
            },
    {
        if to.day_number() < from.day_number() {
            Err(RangeError {})
        } else {
            Ok(DateRange { from, to })
        }
    }
}

/// The views of a list of strings.
pub open spec fn string_views(v: Seq<String>) -> Seq<Seq<char>> {
    v.map_values(|s: String| s@)
}

/// The text forms of a list of dates.
pub open spec fn date_texts(ds: Seq<Date>) -> Seq<Seq<char>> {
    ds.map_values(|d: Date| date_text(d))
}

/// The weekdays among `d` and the `n - 1` days after it, in calendar order.
pub open spec fn weekdays_from(d: Date, n: nat) -> Seq<Date>
    decreases n,
{
    if n == 0 {
        Seq::empty()
    } else {
        let rest = weekdays_from(d.next(), (n - 1) as nat);
        if d.is_weekend() {
            rest
        } else {
            seq![d] + rest
        }
    }
}

/// The weekdays of the inclusive period from `from` through `to`, in
/// calendar order; empty where the period runs backwards.
pub open spec fn weekdays_between(from: Date, to: Date) -> Seq<Date> {
    if from.valid() && to.valid() && from.day_index() <= to.day_index() {
        weekdays_from(from, (to.day_index() - from.day_index() + 1) as nat)
    } else {
        Seq::empty()
    }
}

/// Each entry of `weekdays_from(d, n)` is a valid non-weekend day among the
/// `n` days starting at `d`, and entries come strictly later down the list.
proof fn lemma_weekdays_from_props(d: Date, n: nat)
    requires
        n > 0 ==> d.valid() && d.day_index() + n - 1 <= crate::date::last_day_index(),
    ensures
        ({
            let ws = weekdays_from(d, n);
            &&& forall|i: int|
                0 <= i < ws.len() ==> (#[trigger] ws[i]).valid()
                    && d.day_index() <= ws[i].day_index() < d.day_index() + n
                    && !ws[i].is_weekend()
            &&& forall|i: int, j: int|
                0 <= i < j < ws.len() ==> ws[i].day_index() < ws[j].day_index()
        }),
    decreases n,
{
    if n > 0 {
        let rest = weekdays_from(d.next(), (n - 1) as nat);
        if n > 1 {
            lemma_next_day_index(d);
        }
        lemma_weekdays_from_props(d.next(), (n - 1) as nat);
        if !d.is_weekend() {
            let ws = weekdays_from(d, n);
            assert forall|i: int|
                0 <= i < ws.len() implies (#[trigger] ws[i]).valid()
                    && d.day_index() <= ws[i].day_index() < d.day_index() + n
                    && !ws[i].is_weekend() by {
                if i > 0 {
                    assert(ws[i] == rest[i - 1]);
                }
            }
            assert forall|i: int, j: int|
                0 <= i < j < ws.len() implies ws[i].day_index() < ws[j].day_index() by {
                assert(ws[j] == rest[j - 1]);
                if i > 0 {
                    assert(ws[i] == rest[i - 1]);
                }
            }
        }
    }
}

/// Expansion keeps to the period: every listed day is a valid weekday within
/// the inclusive range, and the list ascends strictly in calendar order.
pub proof fn lemma_weekdays_between_in_range(from: Date, to: Date)
    requires
        from.valid(),
        to.valid(),
        from.day_index() <= to.day_index(),
    ensures
        ({
            let ws = weekdays_between(from, to);
            &&& forall|i: int|
                0 <= i < ws.len() ==> (#[trigger] ws[i]).valid()
                    && from.day_index() <= ws[i].day_index() <= to.day_index()
                    && !ws[i].is_weekend()
            &&& forall|i: int, j: int|
                0 <= i < j < ws.len() ==> ws[i].day_index() < ws[j].day_index()
        }),
{
    lemma_day_index_le_last(to);
    lemma_weekdays_from_props(from, (to.day_index() - from.day_index() + 1) as nat);
}

/// Every date string the expansion produces parses back to the calendar day
/// it was written from.
pub proof fn lemma_expanded_days_parse_back(from: Date, to: Date)
    requires
        from.valid(),
        to.valid(),
        from.day_index() <= to.day_index(),
    ensures
        forall|i: int|
            0 <= i < weekdays_between(from, to).len() ==> date_of_text(
                #[trigger] date_texts(weekdays_between(from, to))[i],
            ) == Some(weekdays_between(from, to)[i]),
{
    lemma_weekdays_between_in_range(from, to);
    let ws = weekdays_between(from, to);
    assert forall|i: int| 0 <= i < ws.len() implies date_of_text(
        #[trigger] date_texts(ws)[i],
    ) == Some(ws[i]) by {
        lemma_date_text_round_trip(ws[i]);
    }
}

/// A one-day period expands to that day alone when it is a weekday, and to
/// nothing when it falls on the weekend.
pub proof fn lemma_weekdays_single_day(d: Date)
    requires
        d.valid(),
    ensures
        d.is_weekend() ==> weekdays_between(d, d) == Seq::<Date>::empty(),
        !d.is_weekend() ==> weekdays_between(d, d) == seq![d],
{
    reveal_with_fuel(weekdays_from, 2);
    assert(weekdays_between(d, d) == weekdays_from(d, 1));
    if !d.is_weekend() {
        assert(weekdays_from(d, 1) =~= seq![d]);
    }
}

/// Peeling the first day off a forward period.
proof fn lemma_weekdays_between_step(cur: Date, to: Date)
    requires
        cur.valid(),
        to.valid(),
        cur.day_index() <= to.day_index(),
    ensures
        weekdays_between(cur, to) == (if cur.is_weekend() {
            Seq::<Date>::empty()
        } else {
            seq![cur]
        }) + weekdays_between(cur.next(), to),
        cur.day_index() == to.day_index() ==> weekdays_between(cur.next(), to) == Seq::<
            Date,
        >::empty(),
{
    reveal_with_fuel(weekdays_from, 2);
    let n = (to.day_index() - cur.day_index() + 1) as nat;
    if cur.day_index() == to.day_index() {
        if cur.day_index() < crate::date::last_day_index() {
            lemma_next_day_index(cur);
        } else {
            lemma_day_index_le_last(cur);
            let last = Date { year: 9999, month: 12, day: 31 };
            assert(last.day_index() == crate::date::last_day_index()) by {
                assert(crate::date::days_before_year(9999) == 3651694);
            }
            lemma_day_index_injective(cur, last);
            assert(!cur.next().valid());
        }
        assert(weekdays_from(cur, 1) == if cur.is_weekend() {
            Seq::<Date>::empty()
        } else {
            seq![cur] + Seq::<Date>::empty()
        });
        assert(weekdays_between(cur.next(), to) == Seq::<Date>::empty());
    } else {
        lemma_next_day_index(cur);
        assert(weekdays_between(cur.next(), to) == weekdays_from(cur.next(), (n - 1) as nat));
    }
    assert(weekdays_between(cur, to) =~= (if cur.is_weekend() {
        Seq::<Date>::empty()
    } else {
        seq![cur]
    }) + weekdays_between(cur.next(), to));
}

/// Walks the inclusive period from `from` through `to` in calendar order and
/// formats every day that does not fall on a weekend.
pub fn determine_period(from: &Date, to: &Date) -> (r: Vec<String>)
    requires
        from.valid(),
        to.valid(),
        from.day_index() <= to.day_index(),
    ensures
        string_views(r@) == date_texts(weekdays_between(*from, *to)),
{
    let mut days: Vec<String> = Vec::new();
    let mut cur: Date = *from;
    let mut done: bool = false;
    while !done
        invariant
            from.valid(),
            to.valid(),
            cur.valid(),
            !done ==> cur.day_index() <= to.day_index(),
            !done ==> date_texts(weekdays_between(*from, *to)) == string_views(days@)
                + date_texts(weekdays_between(cur, *to)),
            done ==> string_views(days@) == date_texts(weekdays_between(*from, *to)),
        decreases to.day_index() - cur.day_index() + (if done {
            0int
        } else {
            1int
        }),
    {
        proof {
            lemma_weekdays_between_step(cur, *to);
        }
        let ghost head = if cur.is_weekend() {
            Seq::<Date>::empty()
        } else {
            seq![cur]
        };
        let ghost before = days@;
        if !cur.falls_on_weekend() {
            days.push(format_date(&cur));
        }
        proof {
            assert(string_views(days@) + date_texts(weekdays_between(cur.next(), *to))
                =~= string_views(before) + (date_texts(head) + date_texts(
                weekdays_between(cur.next(), *to),
            )));
            assert(date_texts(head) + date_texts(weekdays_between(cur.next(), *to))
                =~= date_texts(head + weekdays_between(cur.next(), *to)));
        }
        if cur.day_number() == to.day_number() {
            proof {
                assert(weekdays_between(cur.next(), *to) == Seq::<Date>::empty());
                assert(date_texts(Seq::<Date>::empty()) =~= Seq::<Seq<char>>::empty());
                assert(string_views(days@) =~= string_views(days@) + Seq::<Seq<char>>::empty());
            }
            done = true;
        } else {
            proof {
                lemma_day_index_le_last(*to);
            }
            cur = cur.next_day();
        }
    }
    days
}

/// Expands the inclusive period from `from` through `to` into the ordered
/// weekday dates it contains, or fails where `to` precedes `from`.
pub fn expand_period(from: &Date, to: &Date) -> (r: Result<Vec<String>, RangeError>)
    requires
        from.valid(),
        to.valid(),
    ensures
        match r {
            Ok(days) => from.day_index() <= to.day_index() && string_views(days@) == date_texts(
                weekdays_between(*from, *to),
            ),
            Err(e) => to.day_index() < from.day_index() && e == (RangeError {}),
        },
{
    if to.day_number() < from.day_number() {
        Err(RangeError {})
    } else {
        Ok(determine_period(from, to))
    }
}

} // verus!
