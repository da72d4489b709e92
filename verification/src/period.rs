//! The span of time that a report covers.

use vstd::prelude::*;

use crate::agent::program_name;
use crate::text::same_text;

verus! {

/// The span of time that a report covers.
#[derive(Clone, Copy, Debug, PartialEq, Eq, Structural)]
pub enum Period {
    Total,
    Week,
    Month,
}

impl Period {
    /// The length of the period in seconds; a total has no length.
    pub open spec fn window(self) -> Option<nat> {
        match self {
            Period::Total => None,
            Period::Week => Some(7 * 86400),
            Period::Month => Some(30 * 86400),
        }
    }

    /// The period in words.
    pub open spec fn label_text(self) -> Seq<char> {
        match self {
            Period::Total => "all time"@,
            Period::Week => "past 7 days"@,
            Period::Month => "past 30 days"@,
        }
    }

    /// The period in words.
    pub fn label(self) -> (r: &'static str)
        ensures
            r@ == self.label_text(),
    {
        match self {
            Period::Total => "all time",
            Period::Week => "past 7 days",
            Period::Month => "past 30 days",
        }
    }

    /// The length of the period in seconds; a total has no length.
    pub fn length_secs(self) -> (r: Option<u64>)
        ensures
            match self.window() {
                Some(length) => r matches Some(secs) && secs == length,
                None => r is None,
            },
    {
        match self {
            Period::Total => None,
            Period::Week => Some(7 * 86400),
            Period::Month => Some(30 * 86400),
        }
    }

    /// The first second of the period that ends at `now`, both in seconds since
    /// the Unix epoch.
    pub fn cutoff_secs(self, now: u64) -> (r: Option<u64>)
        requires
            self.window() matches Some(length) ==> length <= now,
        ensures
            match self.window() {
                Some(length) => r == Some((now - length) as u64),
                None => r is None,
            },
    {
        match self.length_secs() {
            Some(length) => Some(now - length),
            None => None,
        }
    }
}

/// The period that a command-line argument names, if it names one. No argument
/// asks for the total.
pub open spec fn period_named(arg: Option<Seq<char>>) -> Option<Period> {
    match arg {
        None => Some(Period::Total),
        Some(word) => if word == "week"@ || word == "w"@ || word == "7d"@ {
            Some(Period::Week)
        } else if word == "month"@ || word == "m"@ || word == "30d"@ {
            Some(Period::Month)
        } else if word == "total"@ || word == "all"@ || word == "a"@ {
            Some(Period::Total)
        } else {
            None
        },
    }
}

/// A command-line argument that names no period, with the message for the user.
pub struct UnknownPeriod {
    pub message: String,
    pub usage: String,
}

fn usage_line(agent: &str) -> (r: String)
    ensures
        r@ == "Usage: "@ + program_name(agent@) + " [week|month|total]"@,
{
    let program = agent.to_string().concat("-tokens");
    "Usage: ".to_string().concat(program.as_str()).concat(" [week|month|total]")
}

/// Reads the first command-line argument of the program that reports on `agent`.
pub fn parse_period(arg: Option<&str>, agent: &str) -> (r: Result<Period, UnknownPeriod>)
    ensures
        match (arg, r) {
            (None, Ok(period)) => period == Period::Total,
            (Some(word), Ok(period)) => period_named(Some(word@)) == Some(period),
            (None, Err(_)) => false,
            (Some(word), Err(unknown)) => {
                &&& period_named(Some(word@)) is None
                &&& unknown.message@ == "Unknown period: "@ + word@
                &&& unknown.usage@ == "Usage: "@ + program_name(agent@) + " [week|month|total]"@
            },
        },
{
    let word = match arg {
        None => {
            return Ok(Period::Total);
        },
        Some(word) => word,
    };
    if same_text(word, "week") || same_text(word, "w") || same_text(word, "7d") {
        Ok(Period::Week)
    } else if same_text(word, "month") || same_text(word, "m") || same_text(word, "30d") {
        Ok(Period::Month)
    } else if same_text(word, "total") || same_text(word, "all") || same_text(word, "a") {
        Ok(Period::Total)
    } else {
        Err(
            UnknownPeriod {
                message: "Unknown period: ".to_string().concat(word),
                usage: usage_line(agent),
            },
        )
    }
}

/// A week has seven days and a month thirty, of 86400 seconds each.
pub proof fn law_windows()
    ensures
        Period::Week.window() == Some(604_800nat),
        Period::Month.window() == Some(2_592_000nat),
        Period::Total.window() is None,
        Period::Week.label_text() == "past 7 days"@,
        Period::Month.label_text() == "past 30 days"@,
        Period::Total.label_text() == "all time"@,
{
}

/// Each period has three words, no argument asks for the total, and any other word
/// names nothing.
pub proof fn law_period_words(word: Seq<char>)
    ensures
        period_named(None) == Some(Period::Total),
        period_named(Some("week"@)) == Some(Period::Week),
        period_named(Some("w"@)) == Some(Period::Week),
        period_named(Some("7d"@)) == Some(Period::Week),
        period_named(Some("month"@)) == Some(Period::Month),
        period_named(Some("m"@)) == Some(Period::Month),
        period_named(Some("30d"@)) == Some(Period::Month),
        period_named(Some("total"@)) == Some(Period::Total),
        period_named(Some("all"@)) == Some(Period::Total),
        period_named(Some("a"@)) == Some(Period::Total),
        word != "week"@ && word != "w"@ && word != "7d"@ && word != "month"@ && word != "m"@ && word
            != "30d"@ && word != "total"@ && word != "all"@ && word != "a"@ ==> period_named(
            Some(word),
        ) is None,
{
    reveal_strlit("week");
    reveal_strlit("w");
    reveal_strlit("7d");
    reveal_strlit("month");
    reveal_strlit("m");
    reveal_strlit("30d");
    reveal_strlit("total");
    reveal_strlit("all");
    reveal_strlit("a");
    assert("week"@[0] == 'w' && "w"@[0] == 'w' && "7d"@[0] == '7');
    assert("month"@[0] == 'm' && "m"@[0] == 'm' && "30d"@[0] == '3');
    assert("total"@[0] == 't' && "all"@[0] == 'a' && "a"@[0] == 'a');
}

} // verus!
