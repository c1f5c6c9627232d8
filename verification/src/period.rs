//! Symbolic periods of time relative to now.

use vstd::prelude::*;
use vstd::string::StrSliceExecFns;

verus! {

/// Represents a period of time relative to now. Resolving a period to a
/// concrete pair of instants depends on the local calendar and clock and is
/// the caller's business; the library only names the periods and parses
/// their tokens.
#[derive(Debug, Clone, PartialEq, Eq)]
pub enum Period {
    /// The period of time that began at the start of the first tracked event.
    All,
    /// The period of time that began at midnight at the start of the current
    /// day.
    Today,
    /// The period of time 24 hours in length that ended at midnight at the
    /// start of the current day.
    Yesterday,
    /// The period of time that began at midnight at the start of the last
    /// Monday that occurred (including the current day).
    Week,
    /// The period of time 7 days (168 hours) in length that ended at midnight
    /// at the start of the last Monday that occurred.
    LastWeek,
    /// The period of time that began at midnight at the start of the last day
    /// that occurred whose number was 1 (including the current day).
    Month,
    /// The period of time between the midnights at the beginning of the last
    /// two occurrences of days whose numbers were 1 (including the current
    /// day).
    LastMonth,
}

/// Which period, if any, a token names.
pub open spec fn period_of_token(s: Seq<char>) -> Option<Period> {
    if s == "all"@ || s == "a"@ {
        Some(Period::All)
    } else if s == "today"@ || s == "t"@ {
        Some(Period::Today)
    } else if s == "yesterday"@ || s == "y"@ {
        Some(Period::Yesterday)
    } else if s == "week"@ || s == "this week"@ || s == "w"@ || s == "tw"@ {
        Some(Period::Week)
    } else if s == "last week"@ || s == "lastweek"@ || s == "lw"@ {
        Some(Period::LastWeek)
    } else if s == "month"@ || s == "this month"@ || s == "m"@ || s == "tm"@ {
        Some(Period::Month)
    } else if s == "last month"@ || s == "lastmonth"@ || s == "lm"@ {
        Some(Period::LastMonth)
    } else {
        None
    }
}

/// Compare two strings character by character.
fn str_eq(a: &str, b: &str) -> (r: bool)
    ensures
        r == (a@ == b@),
{
    let alen = a.unicode_len();
    let blen = b.unicode_len();
    if alen != blen {
        return false;
    }
    let mut i: usize = 0;
    while i < alen
        invariant
            i <= alen,
            alen == a@.len(),
            blen == b@.len(),
            alen == blen,
            forall|j: int| 0 <= j < i ==> a@[j] == b@[j],
        decreases alen - i,
    {
        if a.get_char(i) != b.get_char(i) {
            return false;
        }
        i = i + 1;
    }
    proof {
        assert(a@ =~= b@);
    }
    true
}

impl Period {
    /// Parse a period from its token, as typed by a caller; shortened forms
    /// such as "t" for "today" are accepted. Unknown tokens are rejected with
    /// a message.
    pub fn from_token(token: &str) -> (r: Result<Period, String>)
        ensures
            (period_of_token(token@) matches Some(p) ==> r == Ok::<Period, String>(p)),
            (period_of_token(token@) is None ==> (r matches Err(m) && m@
                == "Time period not recognised."@)),
    {
        if str_eq(token, "all") || str_eq(token, "a") {
            Ok(Period::All)
        } else if str_eq(token, "today") || str_eq(token, "t") {
            Ok(Period::Today)
        } else if str_eq(token, "yesterday") || str_eq(token, "y") {
            Ok(Period::Yesterday)
        } else if str_eq(token, "week") || str_eq(token, "this week") || str_eq(token, "w")
            || str_eq(token, "tw") {
            Ok(Period::Week)
        } else if str_eq(token, "last week") || str_eq(token, "lastweek") || str_eq(token, "lw") {
            Ok(Period::LastWeek)
        } else if str_eq(token, "month") || str_eq(token, "this month") || str_eq(token, "m")
            || str_eq(token, "tm") {
            Ok(Period::Month)
        } else if str_eq(token, "last month") || str_eq(token, "lastmonth") || str_eq(
            token,
            "lm",
        ) {
            Ok(Period::LastMonth)
        } else {
            Err("Time period not recognised.".to_owned())
        }
    }

    /// The period's display name, as shown to a caller.
    pub fn display_name(&self) -> (r: String)
        ensures
            self is All ==> r@ == "All-Time"@,
            self is Today ==> r@ == "Today"@,
            self is Yesterday ==> r@ == "Yesterday"@,
            self is Week ==> r@ == "This Week"@,
            self is LastWeek ==> r@ == "Last Week"@,
            self is Month ==> r@ == "This Month"@,
            self is LastMonth ==> r@ == "Last Month"@,
    {
        match self {
            Period::All => "All-Time".to_owned(),
            Period::Today => "Today".to_owned(),
            Period::Yesterday => "Yesterday".to_owned(),
            Period::Week => "This Week".to_owned(),
            Period::LastWeek => "Last Week".to_owned(),
            Period::Month => "This Month".to_owned(),
            Period::LastMonth => "Last Month".to_owned(),
        }
    }
}

} // verus!
