//! What can go wrong, and the words for it.
use vstd::prelude::*;

use crate::number;
use crate::text;

verus! {

/// A failure of a command. `S` is the type of the texts in it.
#[derive(Debug, PartialEq, Eq)]
pub enum Failure<S> {
    /// The translation endpoint answered with a text that is no JSON.
    EndpointNonJson(S),
    /// The translation endpoint answered with an HTTP status other than success.
    EndpointHttp { status: S, body: S },
    /// The translation endpoint says that nothing was translated.
    OkFalse,
    /// The translation endpoint sent another number of `ok` flags than there were texts.
    OkLength { flags: usize, texts: usize },
    /// The translation endpoint says that one text was not translated.
    OkFlag { index: usize, field: S },
    /// The translation endpoint mirrors an error code in its answer.
    ErrorCode { code: i128, key: S },
    /// The answer of the translation endpoint has no translations.
    NoTranslations(S),
    /// The translation endpoint sent another number of translations than there were texts.
    TranslationCount { got: usize, sent: usize },
    /// A translation is no string.
    NotAString { field: S, kind: S },
    /// A target language without a name; holds its code in quotes.
    UnsupportedLanguage(S),
    /// OpenRouter answered with an HTTP status other than success.
    OpenRouterHttp { status: S, body: S },
    /// OpenRouter answered with a text that is no JSON.
    OpenRouterNonJson(S),
    /// The answer of OpenRouter has no message.
    OpenRouterShape(S),
    /// The message of the model is no JSON.
    ModelNonJson(S),
    /// A brand token of the source is missing in the translation.
    TokenLost(S),
    /// The configured timeout is no number; holds it in quotes.
    BadTimeout(S),
    /// Translating needs a key.
    TranslateNeedsKey,
    /// Refreshing the graph needs a key.
    RefreshNeedsKey,
    /// The site configuration is no TOML.
    ConfigParse(S),
    /// A page does not begin with TOML front matter.
    FrontMatterMissing { path: S },
    /// The front matter of a page does not end.
    FrontMatterOpen { path: S },
    /// The front matter of a page is no TOML.
    FrontMatterParse { path: S, detail: S },
    /// Front matter could not be written as TOML.
    FrontMatterWrite(S),
    /// Some pages could not be translated.
    TranslateFailures(usize),
    /// The graph was never migrated.
    NoPriorMigrate,
    /// An overview has too few or too many words.
    OverviewLength(usize),
    /// Some pages could not be refreshed.
    RefreshFailures(usize),
    /// Something outside the library failed, such as a file or a connection.
    Outside(S),
}

/// A failure of a command.
pub type CommandError = Failure<String>;

impl View for Failure<String> {
    type V = Failure<Seq<char>>;

    open spec fn view(&self) -> Failure<Seq<char>> {
        match self {
            Failure::EndpointNonJson(a) => Failure::EndpointNonJson(a@),
            Failure::EndpointHttp { status, body } => Failure::EndpointHttp { status: status@, body: body@ },
            Failure::OkFalse => Failure::OkFalse,
            Failure::OkLength { flags, texts } => Failure::OkLength { flags: *flags, texts: *texts },
            Failure::OkFlag { index, field } => Failure::OkFlag { index: *index, field: field@ },
            Failure::ErrorCode { code, key } => Failure::ErrorCode { code: *code, key: key@ },
            Failure::NoTranslations(a) => Failure::NoTranslations(a@),
            Failure::TranslationCount { got, sent } => Failure::TranslationCount { got: *got, sent: *sent },
            Failure::NotAString { field, kind } => Failure::NotAString { field: field@, kind: kind@ },
            Failure::UnsupportedLanguage(a) => Failure::UnsupportedLanguage(a@),
            Failure::OpenRouterHttp { status, body } => Failure::OpenRouterHttp { status: status@, body: body@ },
            Failure::OpenRouterNonJson(a) => Failure::OpenRouterNonJson(a@),
            Failure::OpenRouterShape(a) => Failure::OpenRouterShape(a@),
            Failure::ModelNonJson(a) => Failure::ModelNonJson(a@),
            Failure::TokenLost(a) => Failure::TokenLost(a@),
            Failure::BadTimeout(a) => Failure::BadTimeout(a@),
            Failure::TranslateNeedsKey => Failure::TranslateNeedsKey,
            Failure::RefreshNeedsKey => Failure::RefreshNeedsKey,
            Failure::ConfigParse(a) => Failure::ConfigParse(a@),
            Failure::FrontMatterMissing { path } => Failure::FrontMatterMissing { path: path@ },
            Failure::FrontMatterOpen { path } => Failure::FrontMatterOpen { path: path@ },
            Failure::FrontMatterParse { path, detail } => Failure::FrontMatterParse { path: path@, detail: detail@ },
            Failure::FrontMatterWrite(a) => Failure::FrontMatterWrite(a@),
            Failure::TranslateFailures(a) => Failure::TranslateFailures(*a),
            Failure::NoPriorMigrate => Failure::NoPriorMigrate,
            Failure::OverviewLength(a) => Failure::OverviewLength(*a),
            Failure::RefreshFailures(a) => Failure::RefreshFailures(*a),
            Failure::Outside(a) => Failure::Outside(a@),
        }
    }
}

/// The words for a failure.
pub open spec fn message_of(f: Failure<Seq<char>>) -> Seq<char> {
    match f {
        Failure::EndpointNonJson(a) => "translate endpoint non-JSON response: "@ + a,
        Failure::EndpointHttp { status, body } => "translate endpoint HTTP "@ + status + ": "@ + body,
        Failure::OkFalse => "translate endpoint reported ok:false — source text returned untranslated, not writing"@,
        Failure::OkLength { flags, texts } => "translate endpoint: malformed envelope with "@ + number::decimal_of(flags as nat) + " ok flag(s) for "@ + number::decimal_of(texts as nat) + " text(s) — not writing"@,
        Failure::OkFlag { index, field } => "translate endpoint: ok["@ + number::decimal_of(index as nat) + "]=false — `"@ + field + "` came back untranslated, not writing"@,
        Failure::ErrorCode { code, key } => "translate endpoint error code "@ + number::signed_decimal_of(code as int) + " in `"@ + key + "` — not writing"@,
        Failure::NoTranslations(a) => "translate endpoint: no `translations` array: "@ + a,
        Failure::TranslationCount { got, sent } => "translate endpoint returned "@ + number::decimal_of(got as nat) + " translation(s) for "@ + number::decimal_of(sent as nat) + " text(s)"@,
        Failure::NotAString { field, kind } => "translate endpoint: value for `"@ + field + "` is not a string ("@ + kind + ") — not writing blanks"@,
        Failure::UnsupportedLanguage(a) => "unsupported target language "@ + a,
        Failure::OpenRouterHttp { status, body } => "OpenRouter HTTP "@ + status + ": "@ + body,
        Failure::OpenRouterNonJson(a) => "OpenRouter non-JSON response: "@ + a,
        Failure::OpenRouterShape(a) => "OpenRouter: unexpected shape: "@ + a,
        Failure::ModelNonJson(a) => "model returned non-JSON (likely truncated at output cap): "@ + a,
        Failure::TokenLost(a) => "glossary: brand token \""@ + a + "\" lost in translation"@,
        Failure::BadTimeout(a) => "TRANSLATE_TIMEOUT must be a number of seconds, got "@ + a,
        Failure::TranslateNeedsKey => "OPENROUTER_API_KEY not set — translate needs it"@,
        Failure::RefreshNeedsKey => "OPENROUTER_API_KEY not set — refresh needs it"@,
        Failure::ConfigParse(a) => "parse config: "@ + a,
        Failure::FrontMatterMissing { path } => path + ": expected `+++` frontmatter (TOML). `zola translate` handles `+++` pages only."@,
        Failure::FrontMatterOpen { path } => path + ": frontmatter not terminated by `+++`"@,
        Failure::FrontMatterParse { path, detail } => path + ": frontmatter parse: "@ + detail,
        Failure::FrontMatterWrite(a) => "serialize frontmatter: "@ + a,
        Failure::TranslateFailures(a) => "translate completed with "@ + number::decimal_of(a as nat) + " failure(s)"@,
        Failure::NoPriorMigrate => "no prior migrate found (meta.source_origin empty); run `zola graph migrate` first"@,
        Failure::OverviewLength(a) => "overview word count "@ + number::decimal_of(a as nat) + " still outside 134–167; leaving unset"@,
        Failure::RefreshFailures(a) => "refresh completed with "@ + number::decimal_of(a as nat) + " failure(s)"@,
        Failure::Outside(a) => a,
    }
}

impl Failure<String> {
    /// The words for the failure.
    pub fn message(&self) -> (s: String)
        ensures
            s@ == message_of(self@),
    {
        let mut s: String = String::new();
        match self {
            Failure::EndpointNonJson(a) => {
                s.append("translate endpoint non-JSON response: ");
                s.append(a.as_str());
            },
            Failure::EndpointHttp { status, body } => {
                s.append("translate endpoint HTTP ");
                s.append(status.as_str());
                s.append(": ");
                s.append(body.as_str());
            },
            Failure::OkFalse => {
                s.append("translate endpoint reported ok:false — source text returned untranslated, not writing");
            },
            Failure::OkLength { flags, texts } => {
                s.append("translate endpoint: malformed envelope with ");
                s.append(number::decimal(*flags as u128).as_str());
                s.append(" ok flag(s) for ");
                s.append(number::decimal(*texts as u128).as_str());
                s.append(" text(s) — not writing");
            },
            Failure::OkFlag { index, field } => {
                s.append("translate endpoint: ok[");
                s.append(number::decimal(*index as u128).as_str());
                s.append("]=false — `");
                s.append(field.as_str());
                s.append("` came back untranslated, not writing");
            },
            Failure::ErrorCode { code, key } => {
                s.append("translate endpoint error code ");
                s.append(number::signed_decimal(*code).as_str());
                s.append(" in `");
                s.append(key.as_str());
                s.append("` — not writing");
            },
            Failure::NoTranslations(a) => {
                s.append("translate endpoint: no `translations` array: ");
                s.append(a.as_str());
            },
            Failure::TranslationCount { got, sent } => {
                s.append("translate endpoint returned ");
                s.append(number::decimal(*got as u128).as_str());
                s.append(" translation(s) for ");
                s.append(number::decimal(*sent as u128).as_str());
                s.append(" text(s)");
            },
            Failure::NotAString { field, kind } => {
                s.append("translate endpoint: value for `");
                s.append(field.as_str());
                s.append("` is not a string (");
                s.append(kind.as_str());
                s.append(") — not writing blanks");
            },
            Failure::UnsupportedLanguage(a) => {
                s.append("unsupported target language ");
                s.append(a.as_str());
            },
            Failure::OpenRouterHttp { status, body } => {
                s.append("OpenRouter HTTP ");
                s.append(status.as_str());
                s.append(": ");
                s.append(body.as_str());
            },
            Failure::OpenRouterNonJson(a) => {
                s.append("OpenRouter non-JSON response: ");
                s.append(a.as_str());
            },
            Failure::OpenRouterShape(a) => {
                s.append("OpenRouter: unexpected shape: ");
                s.append(a.as_str());
            },
            Failure::ModelNonJson(a) => {
                s.append("model returned non-JSON (likely truncated at output cap): ");
                s.append(a.as_str());
            },
            Failure::TokenLost(a) => {
                s.append("glossary: brand token \"");
                s.append(a.as_str());
                s.append("\" lost in translation");
            },
            Failure::BadTimeout(a) => {
                s.append("TRANSLATE_TIMEOUT must be a number of seconds, got ");
                s.append(a.as_str());
            },
            Failure::TranslateNeedsKey => {
                s.append("OPENROUTER_API_KEY not set — translate needs it");
            },
            Failure::RefreshNeedsKey => {
                s.append("OPENROUTER_API_KEY not set — refresh needs it");
            },
            Failure::ConfigParse(a) => {
                s.append("parse config: ");
                s.append(a.as_str());
            },
            Failure::FrontMatterMissing { path } => {
                s.append(path.as_str());
                s.append(": expected `+++` frontmatter (TOML). `zola translate` handles `+++` pages only.");
            },
            Failure::FrontMatterOpen { path } => {
                s.append(path.as_str());
                s.append(": frontmatter not terminated by `+++`");
            },
            Failure::FrontMatterParse { path, detail } => {
                s.append(path.as_str());
                s.append(": frontmatter parse: ");
                s.append(detail.as_str());
            },
            Failure::FrontMatterWrite(a) => {
                s.append("serialize frontmatter: ");
                s.append(a.as_str());
            },
            Failure::TranslateFailures(a) => {
                s.append("translate completed with ");
                s.append(number::decimal(*a as u128).as_str());
                s.append(" failure(s)");
            },
            Failure::NoPriorMigrate => {
                s.append("no prior migrate found (meta.source_origin empty); run `zola graph migrate` first");
            },
            Failure::OverviewLength(a) => {
                s.append("overview word count ");
                s.append(number::decimal(*a as u128).as_str());
                s.append(" still outside 134–167; leaving unset");
            },
            Failure::RefreshFailures(a) => {
                s.append("refresh completed with ");
                s.append(number::decimal(*a as u128).as_str());
                s.append(" failure(s)");
            },
            Failure::Outside(a) => {
                s.append(a.as_str());
            },
        }
        assert(s@ =~= message_of(self@));
        s
    }
}

/// A text in quotes, as std's `Debug` for `str` writes it.
pub uninterp spec fn debug_text(s: Seq<char>) -> Seq<char>;

/// Formats a text with std's `Debug` for `str`. The contract says that the result
/// is fixed by the text.
#[verifier::external_body]
pub(crate) fn quoted(s: &str) -> (q: String)
    ensures
        q@ == debug_text(s@),
{
    format!("{s:?}")
}

/// Whether a failure that carries a text tells it.
pub open spec fn tells(f: Failure<Seq<char>>, detail: Seq<char>) -> bool {
    text::occurs(detail, message_of(f))
}

proof fn lemma_told(a: Seq<char>, detail: Seq<char>, b: Seq<char>)
    ensures
        text::occurs(detail, a + detail + b),
        text::occurs(detail, detail + b),
        text::occurs(detail, a + detail),
{
    text::law_occurs(detail, a + detail + b);
    text::law_occurs(detail, detail + b);
    text::law_occurs(detail, a + detail);
    let none = Seq::<char>::empty();
    assert(detail + b =~= none + detail + b);
    assert(a + detail =~= a + detail + none);
}

/// The words for a failure tell what it carries: every text of it as it is, and every
/// number in decimal.
pub proof fn law_message_tells_what_failed(f: Failure<Seq<char>>)
    ensures
        match f {
            Failure::EndpointNonJson(a) => tells(f, a),
            Failure::EndpointHttp { status, body } => tells(f, status) && tells(f, body),
            Failure::OkFalse => true,
            Failure::OkLength { flags, texts } => tells(f, number::decimal_of(flags as nat))
                && tells(f, number::decimal_of(texts as nat)),
            Failure::OkFlag { index, field } => tells(f, number::decimal_of(index as nat)) && tells(
                f,
                field,
            ),
            Failure::ErrorCode { code, key } => tells(f, number::signed_decimal_of(code as int))
                && tells(f, key),
            Failure::NoTranslations(a) => tells(f, a),
            Failure::TranslationCount { got, sent } => tells(f, number::decimal_of(got as nat))
                && tells(f, number::decimal_of(sent as nat)),
            Failure::NotAString { field, kind } => tells(f, field) && tells(f, kind),
            Failure::UnsupportedLanguage(a) => tells(f, a),
            Failure::OpenRouterHttp { status, body } => tells(f, status) && tells(f, body),
            Failure::OpenRouterNonJson(a) => tells(f, a),
            Failure::OpenRouterShape(a) => tells(f, a),
            Failure::ModelNonJson(a) => tells(f, a),
            Failure::TokenLost(a) => tells(f, a),
            Failure::BadTimeout(a) => tells(f, a),
            Failure::TranslateNeedsKey => true,
            Failure::RefreshNeedsKey => true,
            Failure::ConfigParse(a) => tells(f, a),
            Failure::FrontMatterMissing { path } => tells(f, path),
            Failure::FrontMatterOpen { path } => tells(f, path),
            Failure::FrontMatterParse { path, detail } => tells(f, path) && tells(f, detail),
            Failure::FrontMatterWrite(a) => tells(f, a),
            Failure::TranslateFailures(a) => tells(f, number::decimal_of(a as nat)),
            Failure::NoPriorMigrate => true,
            Failure::OverviewLength(a) => tells(f, number::decimal_of(a as nat)),
            Failure::RefreshFailures(a) => tells(f, number::decimal_of(a as nat)),
            Failure::Outside(a) => message_of(f) == a,
        },
{
    match f {
        Failure::EndpointNonJson(a) => lemma_told(
            "translate endpoint non-JSON response: "@,
            a,
            Seq::empty(),
        ),
        Failure::EndpointHttp { status, body } => {
            let a = "translate endpoint HTTP "@;
            lemma_told(a, status, ": "@ + body);
            assert(a + status + (": "@ + body) =~= message_of(f));
            lemma_told(a + status + ": "@, body, Seq::empty());
        },
        Failure::OkLength { flags, texts } => {
            let a = "translate endpoint: malformed envelope with "@;
            let x = number::decimal_of(flags as nat);
            let y = number::decimal_of(texts as nat);
            let b = " ok flag(s) for "@;
            let c = " text(s) — not writing"@;
            lemma_told(a, x, b + y + c);
            assert(a + x + (b + y + c) =~= message_of(f));
            lemma_told(a + x + b, y, c);
        },
        Failure::OkFlag { index, field } => {
            let a = "translate endpoint: ok["@;
            let x = number::decimal_of(index as nat);
            let b = "]=false — `"@;
            let c = "` came back untranslated, not writing"@;
            lemma_told(a, x, b + field + c);
            assert(a + x + (b + field + c) =~= message_of(f));
            lemma_told(a + x + b, field, c);
        },
        Failure::ErrorCode { code, key } => {
            let a = "translate endpoint error code "@;
            let x = number::signed_decimal_of(code as int);
            let b = " in `"@;
            let c = "` — not writing"@;
            lemma_told(a, x, b + key + c);
            assert(a + x + (b + key + c) =~= message_of(f));
            lemma_told(a + x + b, key, c);
        },
        Failure::NoTranslations(a) => lemma_told(
            "translate endpoint: no `translations` array: "@,
            a,
            Seq::empty(),
        ),
        Failure::TranslationCount { got, sent } => {
            let a = "translate endpoint returned "@;
            let x = number::decimal_of(got as nat);
            let y = number::decimal_of(sent as nat);
            let b = " translation(s) for "@;
            let c = " text(s)"@;
            lemma_told(a, x, b + y + c);
            assert(a + x + (b + y + c) =~= message_of(f));
            lemma_told(a + x + b, y, c);
        },
        Failure::NotAString { field, kind } => {
            let a = "translate endpoint: value for `"@;
            let b = "` is not a string ("@;
            let c = ") — not writing blanks"@;
            lemma_told(a, field, b + kind + c);
            assert(a + field + (b + kind + c) =~= message_of(f));
            lemma_told(a + field + b, kind, c);
        },
        Failure::UnsupportedLanguage(a) => lemma_told(
            "unsupported target language "@,
            a,
            Seq::empty(),
        ),
        Failure::OpenRouterHttp { status, body } => {
            let a = "OpenRouter HTTP "@;
            lemma_told(a, status, ": "@ + body);
            assert(a + status + (": "@ + body) =~= message_of(f));
            lemma_told(a + status + ": "@, body, Seq::empty());
        },
        Failure::OpenRouterNonJson(a) => lemma_told(
            "OpenRouter non-JSON response: "@,
            a,
            Seq::empty(),
        ),
        Failure::OpenRouterShape(a) => lemma_told(
            "OpenRouter: unexpected shape: "@,
            a,
            Seq::empty(),
        ),
        Failure::ModelNonJson(a) => lemma_told(
            "model returned non-JSON (likely truncated at output cap): "@,
            a,
            Seq::empty(),
        ),
        Failure::TokenLost(a) => lemma_told(
            "glossary: brand token \""@,
            a,
            "\" lost in translation"@,
        ),
        Failure::BadTimeout(a) => lemma_told(
            "TRANSLATE_TIMEOUT must be a number of seconds, got "@,
            a,
            Seq::empty(),
        ),
        Failure::ConfigParse(a) => lemma_told("parse config: "@, a, Seq::empty()),
        Failure::FrontMatterMissing { path } => lemma_told(
            Seq::empty(),
            path,
            ": expected `+++` frontmatter (TOML). `zola translate` handles `+++` pages only."@,
        ),
        Failure::FrontMatterOpen { path } => lemma_told(
            Seq::empty(),
            path,
            ": frontmatter not terminated by `+++`"@,
        ),
        Failure::FrontMatterParse { path, detail } => {
            let b = ": frontmatter parse: "@;
            lemma_told(Seq::empty(), path, b + detail);
            assert(path + (b + detail) =~= message_of(f));
            lemma_told(path + b, detail, Seq::empty());
        },
        Failure::FrontMatterWrite(a) => lemma_told("serialize frontmatter: "@, a, Seq::empty()),
        Failure::TranslateFailures(a) => lemma_told(
            "translate completed with "@,
            number::decimal_of(a as nat),
            " failure(s)"@,
        ),
        Failure::OverviewLength(a) => lemma_told(
            "overview word count "@,
            number::decimal_of(a as nat),
            " still outside 134–167; leaving unset"@,
        ),
        Failure::RefreshFailures(a) => lemma_told(
            "refresh completed with "@,
            number::decimal_of(a as nat),
            " failure(s)"@,
        ),
        _ => {},
    }
}

} // verus!
