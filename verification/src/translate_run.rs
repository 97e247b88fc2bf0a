//! A run over the pages of a site that brings their translations up to date.
//!
//! A translation is fresh where it carries the source hash of its page. Missing
//! and stale ones are asked for, up to a cap. A translation that fails, or that
//! lost a brand token, is not written and makes the run fail.
use vstd::prelude::*;

use crate::failure::{CommandError, Failure};
use crate::page;
use crate::text;
use crate::toml_value;
use crate::toml_value::{TomlModel, TomlValue};
use crate::translate;
use crate::translate::{Fields, Translatable};

verus! {

/// The counters of a run.
#[derive(Debug, PartialEq, Eq)]
pub struct TranslateRun {
    /// How many translations may be asked for.
    pub cap: usize,
    /// Whether nothing is asked for and nothing is written.
    pub dry_run: bool,
    /// How many translations were asked for.
    pub calls: usize,
    /// How many pages could not be read and how many translations failed.
    pub failures: usize,
    /// How many translations were written.
    pub written: usize,
    /// How many translations were fresh.
    pub skipped_fresh: usize,
    /// How many translations were not asked for because of the cap.
    pub skipped_cap: usize,
}

/// What is to be done for one page in one language.
#[derive(Clone, Copy, Debug, PartialEq, Eq)]
pub enum Step {
    /// Nothing: the translation is fresh.
    Fresh,
    /// Nothing but to report that the translation is missing or stale.
    Report,
    /// Nothing in this run: the cap is reached.
    Capped,
    /// Ask for a translation.
    Ask,
}

/// What comes of a translation that was asked for. `S` is the type of the texts
/// in it.
#[derive(Debug, PartialEq, Eq)]
pub enum Outcome<S> {
    /// Write this text.
    Write(S),
    /// Write nothing, and go on.
    Failed(Failure<S>),
    /// Write nothing, and end the run.
    Stop(Failure<S>),
}

impl View for Outcome<String> {
    type V = Outcome<Seq<char>>;

    open spec fn view(&self) -> Outcome<Seq<char>> {
        match self {
            Outcome::Write(s) => Outcome::Write(s@),
            Outcome::Failed(e) => Outcome::Failed(e@),
            Outcome::Stop(e) => Outcome::Stop(e@),
        }
    }
}

/// Whether the translation of a page is there and carries a source hash.
pub open spec fn fresh(path: Seq<char>, sibling: Option<Seq<char>>, hash: Seq<char>) -> bool {
    match sibling {
        Some(s) => page::carries(path, s, hash),
        None => false,
    }
}

/// Whether the translation of a page, the text of the file at `path` if there is
/// one, carries a source hash.
pub fn is_fresh(path: &str, sibling: Option<&str>, hash: &str) -> (b: bool)
    ensures
        b == fresh(path@, crate::settings::opt_str(sibling), hash@),
{
    match sibling {
        None => false,
        Some(s) => match page::parse_page(path, s) {
            Err(_) => false,
            Ok((fm, _)) => match page::extra_hash(&fm) {
                Some(h) => text::same(h.as_str(), hash),
                None => false,
            },
        },
    }
}

/// What a page gives to translate, with its source hash; nothing where it has no
/// body.
pub fn page_work(fm: &TomlValue, body: &str) -> (r: Option<(Translatable, String)>)
    ensures
        match r {
            Some((t, hash)) => {
                &&& t@ == page::source_of(fm@, body@)
                &&& t@.body.len() > 0
                &&& hash@ == translate::source_hash_of(t@)
            },
            None => page::source_of(fm@, body@).body.len() == 0,
        },
{
    let t: Translatable = page::page_source(fm, body);
    if t.body.as_str().is_empty() {
        return None;
    }
    let hash: String = translate::source_hash(&t);
    Some((t, hash))
}

/// A page that was opened. `T`, `F` and `S` are the types of its front matter, of
/// what it gives to translate, and of the texts in it.
#[derive(Debug, PartialEq, Eq)]
pub enum Opened<T, F, S> {
    /// The page gives this to translate: its front matter, what is sent, and the
    /// source hash.
    Work { fm: T, en: F, hash: S },
    /// The page has no body yet.
    Empty,
    /// The page could not be read.
    Failed(Failure<S>),
}

impl View for Opened<TomlValue, Translatable, String> {
    type V = Opened<TomlModel, Fields, Seq<char>>;

    open spec fn view(&self) -> Opened<TomlModel, Fields, Seq<char>> {
        match self {
            Opened::Work { fm, en, hash } => Opened::Work { fm: fm@, en: en@, hash: hash@ },
            Opened::Empty => Opened::Empty,
            Opened::Failed(e) => Opened::Failed(e@),
        }
    }
}

/// What is found in the file of a page.
pub open spec fn opened(path: Seq<char>, read: Result<Seq<char>, Failure<Seq<char>>>) -> Opened<
    TomlModel,
    Fields,
    Seq<char>,
> {
    match page::file_of(path, read) {
        Err(e) => Opened::Failed(e),
        Ok((fm, body)) => {
            let en = page::source_of(fm, body);
            if en.body.len() == 0 {
                Opened::Empty
            } else {
                Opened::Work { fm, en, hash: translate::source_hash_of(en) }
            }
        },
    }
}

/// What a reply says.
pub open spec fn reply_view(reply: Result<Translatable, CommandError>) -> Result<
    Fields,
    Failure<Seq<char>>,
> {
    match reply {
        Ok(t) => Ok(t@),
        Err(e) => Err(e@),
    }
}

/// What comes of a reply: a translation that keeps every brand token is written,
/// with the front matter of the source; any other reply is a failure.
pub open spec fn outcome_of(
    fm: TomlModel,
    en: Fields,
    hash: Seq<char>,
    reply: Result<Fields, Failure<Seq<char>>>,
) -> Outcome<Seq<char>> {
    match reply {
        Err(e) => Outcome::Failed(e),
        Ok(t) => match translate::lost_token(en, t) {
            Some(token) => Outcome::Failed(Failure::TokenLost(token)),
            None => match page::sibling_of(fm, t, hash) {
                Ok(s) => Outcome::Write(s),
                Err(e) => Outcome::Stop(e),
            },
        },
    }
}

impl TranslateRun {
    /// Whether no more was asked for than the cap allows, nothing was written that
    /// was not asked for, and a dry run asked for nothing.
    pub open spec fn wf(self) -> bool {
        &&& self.calls <= self.cap
        &&& self.written <= self.calls
        &&& self.dry_run ==> self.calls == 0
    }

    /// Whether the counters can go on counting.
    pub open spec fn room(self) -> bool {
        &&& self.failures < usize::MAX
        &&& self.skipped_fresh < usize::MAX
        &&& self.skipped_cap < usize::MAX
    }

    /// A run that asks for at most `max` translations, where that is given.
    pub fn new(max: Option<usize>, dry_run: bool) -> (run: Self)
        ensures
            run.wf(),
            run.room(),
            run == (TranslateRun {
                cap: match max {
                    Some(n) => n,
                    None => usize::MAX,
                },
                dry_run,
                calls: 0,
                failures: 0,
                written: 0,
                skipped_fresh: 0,
                skipped_cap: 0,
            }),
    {
        let cap: usize = match max {
            Some(n) => n,
            None => usize::MAX,
        };
        TranslateRun {
            cap,
            dry_run,
            calls: 0,
            failures: 0,
            written: 0,
            skipped_fresh: 0,
            skipped_cap: 0,
        }
    }

    /// Whether the counters can go on counting.
    pub fn has_room(&self) -> (b: bool)
        ensures
            b == self.room(),
    {
        self.failures < usize::MAX && self.skipped_fresh < usize::MAX && self.skipped_cap
            < usize::MAX
    }

    /// Opens a page, given what was read of its file. A page that cannot be read is
    /// counted.
    pub fn open_page(&mut self, path: &str, read: Result<String, CommandError>) -> (o: Opened<
        TomlValue,
        Translatable,
        String,
    >)
        requires
            old(self).wf(),
            old(self).room(),
        ensures
            final(self).wf(),
            o@ == opened(path@, page::read_view(read)),
            o matches Opened::Work { fm, .. } ==> toml_value::canonical(fm@)
                && toml_value::buildable(fm@),
            *final(self) == (TranslateRun {
                failures: if o is Failed {
                    (old(self).failures + 1) as usize
                } else {
                    old(self).failures
                },
                ..*old(self)
            }),
    {
        match page::parse_file(path, read) {
            Err(e) => {
                self.failures = self.failures + 1;
                Opened::Failed(e)
            },
            Ok((fm, body)) => match page_work(&fm, body.as_str()) {
                Some((en, hash)) => Opened::Work { fm, en, hash },
                None => Opened::Empty,
            },
        }
    }

    /// What is to be done for a page in a language, and the counters after that.
    pub open spec fn decided(self, fresh: bool) -> (Step, TranslateRun) {
        if fresh {
            (
                Step::Fresh,
                TranslateRun { skipped_fresh: (self.skipped_fresh + 1) as usize, ..self },
            )
        } else if self.dry_run {
            (Step::Report, self)
        } else if self.calls >= self.cap {
            (Step::Capped, TranslateRun { skipped_cap: (self.skipped_cap + 1) as usize, ..self })
        } else {
            (Step::Ask, TranslateRun { calls: (self.calls + 1) as usize, ..self })
        }
    }

    /// Decides what is to be done for a page in a language.
    pub fn decide(&mut self, fresh: bool) -> (step: Step)
        requires
            old(self).wf(),
            old(self).room(),
        ensures
            final(self).wf(),
            (step, *final(self)) == old(self).decided(fresh),
    {
        if fresh {
            self.skipped_fresh = self.skipped_fresh + 1;
            return Step::Fresh;
        }
        if self.dry_run {
            return Step::Report;
        }
        if self.calls >= self.cap {
            self.skipped_cap = self.skipped_cap + 1;
            return Step::Capped;
        }
        self.calls = self.calls + 1;
        Step::Ask
    }

    /// Takes the reply to a translation that was asked for. What is to be written
    /// keeps every brand token of the source, and is read as the translation, as one
    /// of this source hash, and with every other key as in the source, unless the
    /// front matter of the source cannot carry a hash or cannot be stored, or a line
    /// of the written front matter is a delimiter.
    pub fn settle(
        &mut self,
        fm: &TomlValue,
        en: &Translatable,
        hash: &str,
        reply: Result<Translatable, CommandError>,
    ) -> (o: Outcome<String>)
        requires
            old(self).wf(),
            old(self).room(),
        ensures
            final(self).wf(),
            o@ == outcome_of(fm@, en@, hash@, reply_view(reply)),
            fm@ is Table && toml_value::buildable(fm@) ==> !(o is Stop),
            *final(self) == (TranslateRun {
                failures: if o is Failed {
                    (old(self).failures + 1) as usize
                } else {
                    old(self).failures
                },
                ..*old(self)
            }),
            o matches Outcome::Write(s) ==> (reply matches Ok(t) && (page::can_carry_hash(fm@)
                && toml_value::storable(fm@)
                && (page::unfenced(fm@, t@, hash@) || hash@ == translate::source_hash_of(en@)
                && page::strings_fence_free(fm@, t@)) ==> forall|path: Seq<char>| #[trigger]
                page::reads_as(path, s@, fm@, t@, hash@))),
    {
        let t: Translatable = match reply {
            Err(e) => {
                self.failures = self.failures + 1;
                return Outcome::Failed(e);
            },
            Ok(t) => t,
        };
        match translate::glossary_ok(en, &t) {
            Err(e) => {
                self.failures = self.failures + 1;
                return Outcome::Failed(e);
            },
            Ok(_) => {},
        }
        proof {
            law_source_hash_adds_no_delimiter(fm@, t@, en@);
        }
        match page::sibling_text(fm, &t, hash) {
            Ok(s) => Outcome::Write(s),
            Err(e) => Outcome::Stop(e),
        }
    }

    /// Counts a translation that was written.
    pub fn wrote(&mut self)
        requires
            old(self).wf(),
            old(self).written < old(self).calls,
        ensures
            final(self).wf(),
            *final(self) == (TranslateRun {
                written: (old(self).written + 1) as usize,
                ..*old(self)
            }),
    {
        self.written = self.written + 1;
    }

    /// Ends the run: it fails where anything failed.
    pub fn finish(&self) -> (r: Result<(), CommandError>)
        ensures
            match r {
                Ok(_) => self.failures == 0,
                Err(e) => self.failures > 0 && e@ == Failure::<Seq<char>>::TranslateFailures(
                    self.failures,
                ),
            },
    {
        if self.failures > 0 {
            return Err(Failure::TranslateFailures(self.failures));
        }
        Ok(())
    }
}

/// A translation is asked for exactly where it is not fresh, the run is not dry
/// and the cap is not reached.
pub proof fn law_asked_only_when_needed(run: TranslateRun, fresh: bool)
    ensures
        run.decided(fresh).0 is Ask <==> !fresh && !run.dry_run && run.calls < run.cap,
        run.decided(fresh).0 is Fresh <==> fresh,
{
}

/// A translation that lost a brand token is never written.
pub proof fn law_lost_token_is_not_written(
    fm: TomlModel,
    en: Fields,
    hash: Seq<char>,
    reply: Result<Fields, Failure<Seq<char>>>,
    i: int,
)
    requires
        0 <= i < translate::glossary().len(),
        text::occurs(translate::glossary()[i], translate::blob(en)),
        reply matches Ok(t) ==> !text::occurs(translate::glossary()[i], translate::blob(t)),
    ensures
        outcome_of(fm, en, hash, reply) is Failed,
{
    if let Ok(t) = reply {
        translate::law_glossary_keeps_every_token(en, t);
    }
}

/// A source hash adds no delimiter to the front matter of a translation: where no line
/// of a string in the front matter of the source, in the title or in the description
/// is one, none is written.
pub proof fn law_source_hash_adds_no_delimiter(fm: TomlModel, t: Fields, en: Fields)
    ensures
        page::strings_fence_free(fm, t) ==> page::unfenced(fm, t, translate::source_hash_of(en)),
{
    let hash = translate::source_hash_of(en);
    translate::law_source_hash_is_hexadecimal(en);
    assert forall|line: Seq<char>| #[trigger]
        page::is_fence(line) implies !toml_value::ended_line(hash, line) by {
        if toml_value::ended_line(hash, line) {
            let (i, j) = choose|i: int, j: int| #[trigger]
                hash.subrange(i, j) == line && 0 <= i <= j < hash.len() && hash[j] == '\n' && (i
                    == 0 || hash[i - 1] == '\n') && !line.contains('\n');
            assert(hash.contains(hash[j]));
        }
    }
}

/// What was written for a page is fresh for as long as the page gives the same to
/// translate, and no longer, but for pages that agree in their source hash.
pub proof fn law_written_translation_is_fresh(
    path: Seq<char>,
    written: Seq<char>,
    fm: TomlModel,
    t: Fields,
    then: Fields,
    now: Fields,
)
    requires
        page::reads_as(path, written, fm, t, translate::source_hash_of(then)),
    ensures
        fresh(path, Some(written), translate::source_hash_of(now)) <==> translate::source_hash_of(
            then,
        ) == translate::source_hash_of(now),
        then == now ==> fresh(path, Some(written), translate::source_hash_of(now)),
{
}

// ---- what is decided ----

/// A fresh translation is counted as fresh, and nothing is done. Of others a dry run
/// reports, and changes nothing. A run that asked for as many as it may counts one more
/// as left out; before that it asks, and counts that. Nothing else changes.
pub proof fn law_what_is_decided(run: TranslateRun, fresh: bool)
    requires
        run.calls < usize::MAX || run.calls >= run.cap,
        run.skipped_fresh < usize::MAX,
        run.skipped_cap < usize::MAX,
    ensures
        ({
            let (step, after) = run.decided(fresh);
            &&& step is Fresh <==> fresh
            &&& step is Report <==> !fresh && run.dry_run
            &&& step is Capped <==> !fresh && !run.dry_run && run.calls >= run.cap
            &&& step is Ask <==> !fresh && !run.dry_run && run.calls < run.cap
            &&& after.skipped_fresh == run.skipped_fresh + if step is Fresh {
                1int
            } else {
                0int
            }
            &&& after.skipped_cap == run.skipped_cap + if step is Capped {
                1int
            } else {
                0int
            }
            &&& after.calls == run.calls + if step is Ask {
                1int
            } else {
                0int
            }
            &&& after.cap == run.cap
            &&& after.dry_run == run.dry_run
            &&& after.failures == run.failures
            &&& after.written == run.written
        }),
{
}

/// A page that cannot be read is told with its failure. One with a blank body is empty,
/// and every other one gives its front matter, its fields and their source hash.
pub proof fn law_what_is_opened(path: Seq<char>, read: Result<Seq<char>, Failure<Seq<char>>>)
    ensures
        match page::file_of(path, read) {
            Err(e) => opened(path, read) == Opened::<TomlModel, Fields, Seq<char>>::Failed(e),
            Ok((fm, body)) => {
                &&& text::blank(body) <==> opened(path, read) is Empty
                &&& !text::blank(body) ==> (opened(path, read) matches Opened::Work {
                    fm: front,
                    en,
                    hash,
                } && front == fm && en == page::source_of(fm, body) && hash
                    == translate::source_hash_of(en))
            },
        },
{
    if let Ok((fm, body)) = page::file_of(path, read) {
        page::law_inked(body);
    }
}

/// A translation counts as fresh exactly where its file is there, is a page, and carries
/// the source hash; one that is missing or carries another hash, or none, is not.
pub proof fn law_what_is_fresh(path: Seq<char>, s: Seq<char>, hash: Seq<char>)
    ensures
        !fresh(path, None, hash),
        fresh(path, Some(s), hash) <==> match page::file_of(path, Ok(s)) {
            Ok((fm, _)) => toml_value::member_of(
                toml_value::toml_member(fm, "extra"@),
                "source_hash"@,
            ) == Some(TomlModel::Str(hash)),
            Err(_) => false,
        },
{
}

/// A reply that failed is told with its failure, and a translation that lost a brand token
/// with the token; neither is written. Every other translation is written with the front
/// matter of the source, and a failure to write it ends the run.
pub proof fn law_what_comes_of_a_reply(
    fm: TomlModel,
    en: Fields,
    hash: Seq<char>,
    reply: Result<Fields, Failure<Seq<char>>>,
)
    ensures
        match reply {
            Err(e) => outcome_of(fm, en, hash, reply) == Outcome::Failed(e),
            Ok(t) => match (translate::lost_token(en, t), page::sibling_of(fm, t, hash)) {
                (Some(token), _) => outcome_of(fm, en, hash, reply) == Outcome::Failed(
                    Failure::TokenLost(token),
                ),
                (None, Ok(s)) => outcome_of(fm, en, hash, reply) == Outcome::Write(s),
                (None, Err(e)) => outcome_of(fm, en, hash, reply) == Outcome::Stop(e),
            },
        },
{
}

/// A run starts with all counters at zero. Without a cap it asks for every translation.
pub proof fn law_start(max: Option<usize>, dry_run: bool, run: TranslateRun)
    requires
        call_ensures(TranslateRun::new, (max, dry_run), run),
    ensures
        max matches Some(n) ==> run.cap == n,
        max is None ==> run.cap == usize::MAX,
        run.dry_run == dry_run,
        run.calls == 0 && run.failures == 0 && run.written == 0,
        run.skipped_fresh == 0 && run.skipped_cap == 0,
{
}

/// A run succeeds exactly where nothing failed, and tells otherwise how often something
/// did.
pub proof fn law_end_of_a_run(run: &TranslateRun, r: Result<(), CommandError>)
    requires
        call_ensures(TranslateRun::finish, (run,), r),
    ensures
        r is Ok <==> run.failures == 0,
        r matches Err(e) ==> (e@ matches Failure::TranslateFailures(n) && n == run.failures),
{
}

/// A page with a blank body gives nothing to translate. Every other page gives its fields,
/// with the hash of exactly them.
pub proof fn law_work_of_a_page(
    fm: &TomlValue,
    body: &str,
    r: Option<(Translatable, String)>,
)
    requires
        call_ensures(page_work, (fm, body), r),
    ensures
        r is None <==> text::blank(body@),
        r matches Some((t, hash)) ==> {
            &&& t@ == page::source_of(fm@, body@)
            &&& t@.body == text::trim_of(body@)
            &&& hash@ == translate::source_hash_of(t@)
        },
{
    page::law_inked(body@);
}

/// A reply that failed, and a translation that lost a brand token, are counted as failures,
/// once, and nothing is written of them. What is written carries the translation, and what
/// was asked for, written and left out is counted as before.
pub proof fn law_settled_reply()
    ensures
        forall|
            run: &mut TranslateRun,
            fm: &TomlValue,
            en: &Translatable,
            hash: &str,
            reply: Result<Translatable, CommandError>,
            o: Outcome<String>,
        | #[trigger]
            call_ensures(TranslateRun::settle, (run, fm, en, hash, reply), o) && (*run).failures
                < usize::MAX ==> {
                &&& reply matches Err(e) ==> o@ == Outcome::<Seq<char>>::Failed(e@)
                &&& reply matches Ok(t) ==> (translate::lost_token(en@, t@) matches Some(token)
                    ==> o@ == Outcome::<Seq<char>>::Failed(Failure::TokenLost(token)))
                &&& reply matches Ok(t) ==> (translate::lost_token(en@, t@) is None ==> match
                page::sibling_of(fm@, t@, hash@) {
                    Ok(s) => o@ == Outcome::<Seq<char>>::Write(s),
                    Err(e) => o@ == Outcome::<Seq<char>>::Stop(e),
                })
                &&& (*final(run)).failures == (*run).failures + if o is Failed {
                    1int
                } else {
                    0int
                }
                &&& *final(run) == (TranslateRun { failures: (*final(run)).failures, ..*run })
            },
{
}

/// A page that cannot be read is counted as a failure, once, and no other page is.
pub proof fn law_opened_page()
    ensures
        forall|
            run: &mut TranslateRun,
            path: &str,
            read: Result<String, CommandError>,
            o: Opened<TomlValue, Translatable, String>,
        | #[trigger]
            call_ensures(TranslateRun::open_page, (run, path, read), o) && (*run).failures
                < usize::MAX ==> {
                &&& o is Failed <==> page::file_of(path@, page::read_view(read)) is Err
                &&& (*final(run)).failures == (*run).failures + if o is Failed {
                    1int
                } else {
                    0int
                }
                &&& *final(run) == (TranslateRun { failures: (*final(run)).failures, ..*run })
            },
{
}

} // verus!
