//! Overviews of the pillar pages of a site.
use vstd::prelude::*;

use crate::failure::{CommandError, Failure};
use crate::text;

verus! {

/// The fewest words of an overview.
pub const OVERVIEW_MIN: usize = 134;

/// The most words of an overview.
pub const OVERVIEW_MAX: usize = 167;

/// Whether a text has as many words as an overview.
pub open spec fn in_range(s: Seq<char>) -> bool {
    OVERVIEW_MIN <= text::words_of(s) <= OVERVIEW_MAX
}

/// Whether a text has as many words as an overview.
pub fn overview_in_range(s: &str) -> (b: bool)
    ensures
        b == in_range(s@),
{
    let n: usize = text::word_count(s);
    OVERVIEW_MIN <= n && n <= OVERVIEW_MAX
}

/// Whether `r` is the text, where it has as many words as an overview, and a
/// failure that tells its words otherwise.
pub open spec fn judged(s: Seq<char>, r: Result<String, CommandError>) -> bool {
    match r {
        Ok(t) => in_range(s) && t@ == s,
        Err(e) => !in_range(s) && e@ == Failure::<Seq<char>>::OverviewLength(
            text::words_of(s) as usize,
        ),
    }
}

/// Accepts a text as an overview where it has the right number of words.
pub fn accept_overview(s: String) -> (r: Result<String, CommandError>)
    ensures
        judged(s@, r),
{
    if overview_in_range(s.as_str()) {
        Ok(s)
    } else {
        Err(Failure::OverviewLength(text::word_count(s.as_str())))
    }
}

/// What is to be done with an answer to a request for an overview.
#[derive(Debug, PartialEq, Eq)]
pub enum OverviewStep {
    /// Nothing more: this is the overview, or why there is none.
    Done(Result<String, CommandError>),
    /// Ask once more: this answer has too few or too many words.
    AskAgain(String),
}

/// Whether `step` is what an answer calls for: a failure ends it; a text with as
/// many words as an overview is taken; another text is asked for once more, and is
/// a failure the second time.
pub open spec fn step_of(
    answer: Result<String, CommandError>,
    second: bool,
    step: OverviewStep,
) -> bool {
    match answer {
        Err(e) => step == OverviewStep::Done(Err(e)),
        Ok(s) => if second || in_range(s@) {
            step matches OverviewStep::Done(r) && judged(s@, r)
        } else {
            step == OverviewStep::AskAgain(s)
        },
    }
}

/// Decides what is to be done with an answer to the first request for an overview,
/// or to the second.
pub fn overview_step(answer: Result<String, CommandError>, second: bool) -> (step: OverviewStep)
    ensures
        step_of(answer, second, step),
{
    match answer {
        Err(e) => OverviewStep::Done(Err(e)),
        Ok(s) => {
            if second || overview_in_range(s.as_str()) {
                OverviewStep::Done(accept_overview(s))
            } else {
                OverviewStep::AskAgain(s)
            }
        },
    }
}

/// Whether `r` follows from the first answer, and from the second where one was
/// asked for.
pub open spec fn settled<G: FnOnce(&String) -> Result<String, CommandError>>(
    ask_again: G,
    first: Result<String, CommandError>,
    r: Result<String, CommandError>,
) -> bool {
    match first {
        Err(e) => r == Err::<String, CommandError>(e),
        Ok(s) => if in_range(s@) {
            r matches Ok(t) && t@ == s@
        } else {
            exists|second: Result<String, CommandError>| #[trigger]
                ask_again.ensures((&s,), second) && match second {
                    Err(e) => r == Err::<String, CommandError>(e),
                    Ok(t) => judged(t@, r),
                }
        },
    }
}

/// Asks for an overview, and once more where the first has too few or too many
/// words. Each request can be made once, and the second, which is told the text
/// that was refused, may only be made for such an answer to the first: after a
/// failure, or a text of the right length, nothing more is asked.
pub fn fetch_overview<
    F: FnOnce() -> Result<String, CommandError>,
    G: FnOnce(&String) -> Result<String, CommandError>,
>(ask: F, ask_again: G) -> (r: Result<String, CommandError>)
    requires
        ask.requires(()),
        forall|s: String| #[trigger]
            ask.ensures((), Ok::<String, CommandError>(s)) && !in_range(s@) ==> ask_again.requires(
                (&s,),
            ),
    ensures
        exists|first: Result<String, CommandError>| #[trigger]
            ask.ensures((), first) && settled(ask_again, first, r),
        r matches Ok(t) ==> in_range(t@),
{
    let first = ask();
    match overview_step(first, false) {
        OverviewStep::Done(r) => r,
        OverviewStep::AskAgain(refused) => {
            let second = ask_again(&refused);
            match overview_step(second, true) {
                OverviewStep::Done(r) => r,
                OverviewStep::AskAgain(t) => accept_overview(t),
            }
        },
    }
}

// ---- what holds of overviews ----

/// An overview has from 134 to 167 words.
pub proof fn law_overview_length(s: Seq<char>)
    ensures
        in_range(s) <==> 134 <= text::words_of(s) && text::words_of(s) <= 167,
{
}

/// A text of 134 to 167 words is taken as it is, and nothing else is; the failure tells
/// how many words there are.
pub proof fn law_judgement(s: Seq<char>, r: Result<String, CommandError>)
    requires
        judged(s, r),
    ensures
        134 <= text::words_of(s) <= 167 ==> (r matches Ok(t) && t@ == s),
        text::words_of(s) < 134 || text::words_of(s) > 167 ==> (r matches Err(e) && e@
            == Failure::<Seq<char>>::OverviewLength(text::words_of(s) as usize)),
{
}

/// A failure ends the asking, and so does a text of the right length. A text of another
/// length is asked for again the first time, and is a failure the second.
pub proof fn law_overview_step(
    answer: Result<String, CommandError>,
    second: bool,
    step: OverviewStep,
)
    requires
        step_of(answer, second, step),
    ensures
        match answer {
            Err(e) => step == OverviewStep::Done(Err(e)),
            Ok(s) => if 134 <= text::words_of(s@) <= 167 {
                step matches OverviewStep::Done(Ok(t)) && t@ == s@
            } else if second {
                step matches OverviewStep::Done(Err(e)) && e@
                    == Failure::<Seq<char>>::OverviewLength(text::words_of(s@) as usize)
            } else {
                step == OverviewStep::AskAgain(s)
            },
        },
{
}

/// An overview that was fetched is the first answer where that has the right length, and
/// else the second, of the right length too. The first failure is what is told.
pub proof fn law_fetched_overview<G: FnOnce(&String) -> Result<String, CommandError>>(
    ask_again: G,
    first: Result<String, CommandError>,
    r: Result<String, CommandError>,
)
    requires
        settled(ask_again, first, r),
    ensures
        first matches Err(e) ==> r == Err::<String, CommandError>(e),
        first matches Ok(s) ==> (134 <= text::words_of(s@) <= 167 ==> (r matches Ok(t) && t@
            == s@)),
        first matches Ok(s) ==> (!(134 <= text::words_of(s@) <= 167) ==> exists|
            second: Result<String, CommandError>,
        | #[trigger]
            ask_again.ensures((&s,), second) && match second {
                Err(e) => r == Err::<String, CommandError>(e),
                Ok(t) => if 134 <= text::words_of(t@) <= 167 {
                    r matches Ok(u) && u@ == t@
                } else {
                    r matches Err(e) && e@ == Failure::<Seq<char>>::OverviewLength(
                        text::words_of(t@) as usize,
                    )
                },
            }),
        r matches Ok(t) ==> 134 <= text::words_of(t@) <= 167,
{
}

} // verus!
