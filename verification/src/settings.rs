//! What the environment of a command says.
use vstd::prelude::*;

use crate::failure;
use crate::failure::{CommandError, Failure};
use crate::number;
use crate::page;
use crate::text;

verus! {

/// The timeout of a request to a translation endpoint where none is set, in
/// seconds.
pub const DEFAULT_SECS: u64 = 300;

/// The shortest timeout of a request to a translation endpoint, in seconds.
pub const MIN_SECS: u64 = 30;

/// The timeout of a request to OpenRouter, in seconds.
pub const OPENROUTER_SECS: u64 = 120;

/// The number of seconds that a setting asks for, where it is there and not blank.
pub open spec fn asked_of(raw: Option<Seq<char>>) -> Result<Option<u64>, Failure<Seq<char>>> {
    match raw {
        None => Ok(None),
        Some(s) => {
            let t = text::trim_of(s);
            if t.len() == 0 {
                Ok(None)
            } else {
                match number::unsigned_value(t) {
                    None => Err(Failure::BadTimeout(failure::debug_text(t))),
                    Some(n) => Ok(Some(n as u64)),
                }
            }
        },
    }
}

/// The timeout that a setting stands for, in seconds: the default where it is
/// missing or blank, and never less than the minimum.
pub open spec fn timeout_of(raw: Option<Seq<char>>) -> Result<u64, Failure<Seq<char>>> {
    match asked_of(raw) {
        Err(e) => Err(e),
        Ok(None) => Ok(DEFAULT_SECS),
        Ok(Some(n)) => if n < MIN_SECS {
            Ok(MIN_SECS)
        } else {
            Ok(n)
        },
    }
}

/// What an optional text says.
pub open spec fn opt_str(s: Option<&str>) -> Option<Seq<char>> {
    match s {
        Some(t) => Some(t@),
        None => None,
    }
}

/// The number of seconds that a setting asks for. A setting that is no number is a
/// failure, not the default.
pub fn asked_secs(raw: Option<&str>) -> (r: Result<Option<u64>, CommandError>)
    ensures
        match r {
            Ok(n) => asked_of(opt_str(raw)) == Ok::<Option<u64>, Failure<Seq<char>>>(n),
            Err(e) => asked_of(opt_str(raw)) == Err::<Option<u64>, Failure<Seq<char>>>(e@),
        },
{
    let t: String = match raw {
        None => {
            return Ok(None);
        },
        Some(s) => text::trim(s),
    };
    if t.as_str().is_empty() {
        return Ok(None);
    }
    match number::parse_unsigned(t.as_str()) {
        None => Err(Failure::BadTimeout(failure::quoted(t.as_str()))),
        Some(n) => Ok(Some(n)),
    }
}

/// The timeout that a setting stands for, in seconds.
pub fn timeout_secs(raw: Option<&str>) -> (r: Result<u64, CommandError>)
    ensures
        match r {
            Ok(n) => timeout_of(opt_str(raw)) == Ok::<u64, Failure<Seq<char>>>(n),
            Err(e) => timeout_of(opt_str(raw)) == Err::<u64, Failure<Seq<char>>>(e@),
        },
{
    match asked_secs(raw) {
        Err(e) => Err(e),
        Ok(None) => Ok(DEFAULT_SECS),
        Ok(Some(n)) => if n < MIN_SECS {
            Ok(MIN_SECS)
        } else {
            Ok(n)
        },
    }
}

/// A timeout is never shorter than the minimum.
pub proof fn law_timeout_has_a_floor(raw: Option<Seq<char>>)
    ensures
        timeout_of(raw) matches Ok(n) ==> n >= MIN_SECS,
{
}

/// The terms in a list with commas between them: trimmed, without the blank ones.
pub open spec fn terms_of(s: Seq<char>) -> Seq<Seq<char>>
    decreases s.len(),
{
    let n = text::position_of(s, ',');
    if 0 <= n < s.len() {
        term_of(s.take(n)) + terms_of(s.skip(n + 1))
    } else {
        term_of(s)
    }
}

/// The term in a segment, where it holds any ink.
pub open spec fn term_of(segment: Seq<char>) -> Seq<Seq<char>> {
    match page::inked(segment) {
        Some(t) => seq![t],
        None => Seq::empty(),
    }
}

/// The terms in a list with commas between them. Blank segments are dropped, and
/// the rest is kept verbatim once it is trimmed.
pub fn preserve_terms(raw: &str) -> (terms: Vec<String>)
    ensures
        text::views(terms@) == terms_of(raw@),
{
    let v: Vec<char> = text::chars_of(raw);
    let n: usize = v.len();
    let mut terms: Vec<String> = Vec::new();
    let mut from: usize = 0;
    assert(v@.skip(0) =~= v@);
    assert(text::views(terms@) + terms_of(v@) =~= terms_of(v@));
    loop
        invariant
            v@ == raw@,
            n == v@.len(),
            from <= n,
            text::views(terms@) + terms_of(v@.skip(from as int)) == terms_of(v@),
        decreases n - from,
    {
        let mut to: usize = from;
        while to < n && v[to] != ','
            invariant
                n == v@.len(),
                from <= to <= n,
                forall|j: int| from <= j < to ==> #[trigger] v@[j] != ',',
            decreases n - to,
        {
            to = to + 1;
        }
        let ghost rest = v@.skip(from as int);
        let segment: String = text::string_of(&v, from, to);
        proof {
            assert(forall|j: int| 0 <= j < rest.len() ==> rest[j] == v@[j + from]);
            text::lemma_position_at(rest, ',', to - from);
            assert(segment@ =~= rest.take(to - from));
        }
        let ghost was = terms@;
        match page::trimmed(segment.as_str()) {
            Some(t) => {
                terms.push(t);
            },
            None => {},
        }
        assert(text::views(terms@) =~= text::views(was) + term_of(segment@));
        if to == n {
            assert(rest.take(to - from) =~= rest);
            return terms;
        }
        assert(rest.skip(to - from + 1) =~= v@.skip(to + 1));
        assert(text::views(terms@) + terms_of(v@.skip(to + 1)) =~= text::views(was) + terms_of(
            rest,
        ));
        from = to + 1;
    }
}

/// No term is empty, and none has white space at its ends.
pub proof fn law_terms_are_trimmed(s: Seq<char>)
    ensures
        forall|i: int|
            0 <= i < terms_of(s).len() ==> (#[trigger] terms_of(s)[i]).len() > 0 && text::trim_of(
                terms_of(s)[i],
            ) == terms_of(s)[i],
    decreases s.len(),
{
    let n = text::position_of(s, ',');
    let cut = 0 <= n < s.len();
    let head = if cut {
        s.take(n)
    } else {
        s
    };
    text::lemma_trim_twice(head);
    if cut {
        let rest = terms_of(s.skip(n + 1));
        let first = term_of(head);
        law_terms_are_trimmed(s.skip(n + 1));
        assert forall|i: int| 0 <= i < terms_of(s).len() implies (#[trigger] terms_of(s)[i]).len()
            > 0 && text::trim_of(terms_of(s)[i]) == terms_of(s)[i] by {
            if i >= first.len() {
                assert(terms_of(s)[i] == rest[i - first.len()]);
            }
        }
    }
}

/// Which service translates.
#[derive(Clone, Debug, PartialEq, Eq)]
pub enum ClientChoice {
    /// A translation endpoint, at this URL. It needs no key.
    Endpoint(String),
    /// OpenRouter, with this key.
    OpenRouter(String),
}

/// What is set to something.
pub open spec fn set_value(s: Option<Seq<char>>) -> Option<Seq<char>> {
    match s {
        Some(t) => if t.len() > 0 {
            Some(t)
        } else {
            None
        },
        None => None,
    }
}

/// Chooses the service that translates: a translation endpoint where its URL is
/// set, else OpenRouter, which needs a key unless the run is dry.
pub fn choose_client(url: Option<&str>, key: Option<&str>, dry_run: bool) -> (r: Result<
    ClientChoice,
    CommandError,
>)
    ensures
        match r {
            Ok(ClientChoice::Endpoint(u)) => set_value(opt_str(url)) == Some(u@),
            Ok(ClientChoice::OpenRouter(k)) => {
                &&& set_value(opt_str(url)) is None
                &&& if dry_run {
                    k@.len() == 0
                } else {
                    set_value(opt_str(key)) == Some(k@)
                }
            },
            Err(e) => {
                &&& set_value(opt_str(url)) is None
                &&& !dry_run
                &&& set_value(opt_str(key)) is None
                &&& e@ == Failure::<Seq<char>>::TranslateNeedsKey
            },
        },
{
    match url {
        Some(u) => {
            if !u.is_empty() {
                return Ok(ClientChoice::Endpoint(u.to_string()));
            }
        },
        None => {},
    }
    if dry_run {
        return Ok(ClientChoice::OpenRouter(String::new()));
    }
    match key {
        Some(k) => if k.is_empty() {
            Err(Failure::TranslateNeedsKey)
        } else {
            Ok(ClientChoice::OpenRouter(k.to_string()))
        },
        None => Err(Failure::TranslateNeedsKey),
    }
}

/// The key for refreshing the graph, which is not needed where the run is dry.
pub fn refresh_key(key: Option<&str>, dry_run: bool) -> (r: Result<String, CommandError>)
    ensures
        match r {
            Ok(k) => if dry_run {
                k@.len() == 0
            } else {
                set_value(opt_str(key)) == Some(k@)
            },
            Err(e) => {
                &&& !dry_run
                &&& set_value(opt_str(key)) is None
                &&& e@ == Failure::<Seq<char>>::RefreshNeedsKey
            },
        },
{
    if dry_run {
        return Ok(String::new());
    }
    match key {
        Some(k) => if k.is_empty() {
            Err(Failure::RefreshNeedsKey)
        } else {
            Ok(k.to_string())
        },
        None => Err(Failure::RefreshNeedsKey),
    }
}

// ---- what holds of settings ----

/// Without a setting, and with a blank one, a request may take 300 seconds. With a number
/// it may take that many, and at least 30; with anything else nothing is asked at all, and
/// the failure shows what was set.
pub proof fn law_timeouts(raw: Option<Seq<char>>)
    ensures
        match raw {
            None => timeout_of(raw) == Ok::<u64, Failure<Seq<char>>>(300),
            Some(s) => if text::blank(s) {
                timeout_of(raw) == Ok::<u64, Failure<Seq<char>>>(300)
            } else {
                match number::unsigned_value(text::trim_of(s)) {
                    Some(n) => timeout_of(raw) == Ok::<u64, Failure<Seq<char>>>(
                        if n >= 30 {
                            n as u64
                        } else {
                            30
                        },
                    ),
                    None => timeout_of(raw) == Err::<u64, Failure<Seq<char>>>(
                        Failure::BadTimeout(failure::debug_text(text::trim_of(s))),
                    ),
                }
            },
        },
{
    if let Some(s) = raw {
        page::law_inked(s);
    }
}

/// A number of seconds from 30 on is the timeout that it sets, whatever white space is
/// around it.
pub proof fn law_timeout_is_what_is_set(a: Seq<char>, n: u64, b: Seq<char>)
    requires
        text::blank(a),
        text::blank(b),
        n >= 30,
    ensures
        timeout_of(Some(a + number::decimal_of(n as nat) + b)) == Ok::<u64, Failure<Seq<char>>>(n),
{
    let d = number::decimal_of(n as nat);
    number::law_decimal_is_read_back(n as nat);
    number::law_unsigned_numbers(n as nat);
    text::law_white_space(d[0]);
    text::law_white_space(d[d.len() - 1]);
    text::law_trim_gives_back(a, d, b);
}

/// A request to OpenRouter may take 120 seconds.
pub proof fn law_timeout_of_openrouter()
    ensures
        OPENROUTER_SECS == 120,
        DEFAULT_SECS == 300,
        MIN_SECS == 30,
{
}

/// The terms of a list are those before a comma and then those after it. A text without
/// a comma is one term, without the white space around it, unless it is blank.
pub proof fn law_terms_of_a_list(a: Seq<char>, b: Seq<char>)
    ensures
        terms_of(a + seq![','] + b) == terms_of(a) + terms_of(b),
        !a.contains(',') ==> terms_of(a) == if text::blank(a) {
            Seq::empty()
        } else {
            seq![text::trim_of(a)]
        },
    decreases a.len(),
{
    let s = a + seq![','] + b;
    let n = text::position_of(a, ',');
    text::lemma_position_found(a, ',');
    page::law_inked(a);
    if n < a.len() {
        assert(a.contains(a[n]));
        assert forall|j: int| 0 <= j < n implies #[trigger] s[j] != ',' by {
            assert(s[j] == a[j]);
        }
        assert(s[n] == a[n]);
        text::lemma_position_at(s, ',', n);
        let rest = a.skip(n + 1);
        law_terms_of_a_list(rest, b);
        assert(s.take(n) =~= a.take(n));
        assert(s.skip(n + 1) =~= rest + seq![','] + b);
        assert(terms_of(s) =~= term_of(a.take(n)) + (terms_of(rest) + terms_of(b)));
        assert(terms_of(a) == term_of(a.take(n)) + terms_of(rest));
        assert(terms_of(s) =~= terms_of(a) + terms_of(b));
    } else {
        assert forall|j: int| 0 <= j < a.len() implies #[trigger] s[j] != ',' by {
            assert(s[j] == a[j]);
        }
        assert(s[a.len() as int] == ',');
        text::lemma_position_at(s, ',', a.len() as int);
        assert(s.take(a.len() as int) =~= a);
        assert(s.skip((a.len() + 1) as int) =~= b);
    }
}

/// What is set to an empty text is not set; everything else that is set, is, as it is.
pub proof fn law_set_values(s: Option<Seq<char>>)
    ensures
        set_value(s) == match s {
            Some(t) if t != Seq::<char>::empty() => Some(t),
            _ => None,
        },
{
    if let Some(t) = s {
        if t.len() == 0 {
            assert(t =~= Seq::<char>::empty());
        }
    }
}

/// A translation endpoint is chosen wherever its address is set to anything, with that
/// address and without a key. Otherwise OpenRouter is chosen, with its key; only a dry run
/// does without one.
pub proof fn law_choice_of_a_client(
    url: Option<&str>,
    key: Option<&str>,
    dry_run: bool,
    r: Result<ClientChoice, CommandError>,
)
    requires
        call_ensures(choose_client, (url, key, dry_run), r),
    ensures
        url matches Some(u) ==> (u@.len() > 0 ==> (r matches Ok(ClientChoice::Endpoint(v)) && v@
            == u@)),
        (url matches Some(u) ==> u@.len() == 0) && !dry_run ==> match key {
            Some(k) => if k@.len() > 0 {
                r matches Ok(ClientChoice::OpenRouter(v)) && v@ == k@
            } else {
                r matches Err(e) && e@ is TranslateNeedsKey
            },
            None => r matches Err(e) && e@ is TranslateNeedsKey,
        },
        (url matches Some(u) ==> u@.len() == 0) && dry_run ==> (r matches Ok(
            ClientChoice::OpenRouter(v),
        ) && v@.len() == 0),
{
}

/// Refreshing takes the key that is set, and fails without one; a dry run needs none.
pub proof fn law_key_for_refreshing(
    key: Option<&str>,
    dry_run: bool,
    r: Result<String, CommandError>,
)
    requires
        call_ensures(refresh_key, (key, dry_run), r),
    ensures
        dry_run ==> (r matches Ok(v) && v@.len() == 0),
        !dry_run ==> match key {
            Some(k) => if k@.len() > 0 {
                r matches Ok(v) && v@ == k@
            } else {
                r matches Err(e) && e@ is RefreshNeedsKey
            },
            None => r matches Err(e) && e@ is RefreshNeedsKey,
        },
{
}

} // verus!
