//! Translating the fields of a page: what is sent, what a translation must keep,
//! and how the translations of the pieces of a long body are put together.
use vstd::prelude::*;
use vstd::utf8::*;

use crate::chunk;
use crate::digest;
use crate::failure::{CommandError, Failure};
use crate::text;

verus! {

/// Translatable fields of a default-language page.
#[derive(Debug, PartialEq, Eq)]
pub struct Translatable {
    pub title: String,
    pub description: String,
    pub body: String,
}

/// What the translatable fields of a page say.
pub struct Fields {
    pub title: Seq<char>,
    pub description: Seq<char>,
    pub body: Seq<char>,
}

impl View for Translatable {
    type V = Fields;

    open spec fn view(&self) -> Fields {
        Fields { title: self.title@, description: self.description@, body: self.body@ }
    }
}

impl Clone for Translatable {
    fn clone(&self) -> (r: Self)
        ensures
            r@ == self@,
    {
        Translatable {
            title: self.title.clone(),
            description: self.description.clone(),
            body: self.body.clone(),
        }
    }
}

/// A service that translates the fields of a page.
pub trait LlmClient {
    /// Translates `fields` into the language `lang`.
    fn translate(&self, fields: &Translatable, lang: &str, key: &str) -> Result<
        Translatable,
        CommandError,
    >;
}

// ---- the source hash ----

/// The bytes that the source hash is taken of: the fields, with a zero byte
/// between two.
pub open spec fn hash_input(f: Fields) -> Seq<u8> {
    encode_utf8(f.title) + seq![0u8] + encode_utf8(f.description) + seq![0u8] + encode_utf8(f.body)
}

/// The source hash of the fields of a page.
pub open spec fn source_hash_of(f: Fields) -> Seq<char> {
    digest::hex_of(digest::sha256_digest(hash_input(f)))
}

fn append_bytes(data: &mut Vec<u8>, s: &str)
    ensures
        final(data)@ == old(data)@ + encode_utf8(s@),
{
    let bytes: &[u8] = s.as_bytes();
    let ghost before = data@;
    for i in 0..bytes.len()
        invariant
            bytes@ == encode_utf8(s@),
            data@ == before + bytes@.take(i as int),
    {
        data.push(bytes[i]);
        assert(data@ =~= before + bytes@.take(i + 1));
    }
    assert(bytes@.take(bytes@.len() as int) =~= bytes@);
}

/// SHA-256 over the translatable fields, with a zero byte between two for an
/// unambiguous boundary.
pub fn source_hash(t: &Translatable) -> (h: String)
    ensures
        h@ == source_hash_of(t@),
        h@.len() == 64,
{
    let mut data: Vec<u8> = Vec::new();
    append_bytes(&mut data, t.title.as_str());
    data.push(0);
    append_bytes(&mut data, t.description.as_str());
    data.push(0);
    append_bytes(&mut data, t.body.as_str());
    assert(data@ =~= hash_input(t@));
    digest::sha256_hex(&data)
}

/// A source hash is made of lower-case hexadecimal digits: it is a single line.
pub proof fn law_source_hash_is_hexadecimal(f: Fields)
    ensures
        forall|i: int|
            0 <= i < source_hash_of(f).len() ==> digest::is_hex_digit(
                #[trigger] source_hash_of(f)[i],
            ),
        !source_hash_of(f).contains('\n'),
{
    digest::lemma_hex_digits(digest::sha256_digest(hash_input(f)));
}

proof fn lemma_scalar_has_no_zero(c: char)
    requires
        c != '\0',
    ensures
        !encode_scalar(c as u32).contains(0u8),
{
    let s = c as u32;
    char_is_scalar(c);
    assert(s != 0);
    assert(0 < s <= 0x7F ==> (s & 0x7F) as u8 != 0u8) by (bit_vector);
    assert((0xC0u8 | ((s >> 6) & 0x1F) as u8) != 0u8) by (bit_vector);
    assert((0xE0u8 | ((s >> 12) & 0x0F) as u8) != 0u8) by (bit_vector);
    assert((0xF0u8 | ((s >> 18) & 0x7) as u8) != 0u8) by (bit_vector);
    assert((0x80u8 | (s & 0x3F) as u8) != 0u8) by (bit_vector);
    assert((0x80u8 | ((s >> 6) & 0x3F) as u8) != 0u8) by (bit_vector);
    assert((0x80u8 | ((s >> 12) & 0x3F) as u8) != 0u8) by (bit_vector);
}

proof fn lemma_text_has_no_zero(s: Seq<char>)
    requires
        !s.contains('\0'),
    ensures
        !encode_utf8(s).contains(0u8),
    decreases s.len(),
{
    if s.len() > 0 {
        assert(s.contains(s[0]));
        lemma_scalar_has_no_zero(s[0]);
        assert forall|c: char| s.drop_first().contains(c) implies s.contains(c) by {
            let i = choose|i: int| 0 <= i < s.drop_first().len() && s.drop_first()[i] == c;
            assert(s[i + 1] == c);
        }
        lemma_text_has_no_zero(s.drop_first());
        let a = encode_scalar(s[0] as u32);
        let b = encode_utf8(s.drop_first());
        assert forall|i: int| 0 <= i < (a + b).len() implies (a + b)[i] != 0u8 by {
            if i < a.len() {
                assert(a.contains(a[i]));
            } else {
                assert(b.contains(b[i - a.len()]));
            }
        }
    }
}

proof fn lemma_split_at_zero(a: Seq<u8>, x: Seq<u8>, b: Seq<u8>, y: Seq<u8>)
    requires
        !a.contains(0u8),
        !b.contains(0u8),
        a + seq![0u8] + x == b + seq![0u8] + y,
    ensures
        a == b,
        x == y,
{
    let l = a + seq![0u8] + x;
    let r = b + seq![0u8] + y;
    assert(l[a.len() as int] == 0u8);
    assert(r[b.len() as int] == 0u8);
    if a.len() < b.len() {
        assert(b[a.len() as int] == r[a.len() as int]);
        assert(b.contains(0u8));
    }
    if b.len() < a.len() {
        assert(a[b.len() as int] == l[b.len() as int]);
        assert(a.contains(0u8));
    }
    assert forall|i: int| 0 <= i < a.len() implies a[i] == b[i] by {
        assert(l[i] == a[i] && r[i] == b[i]);
    }
    assert(a =~= b);
    assert(l.len() == a.len() + 1 + x.len());
    assert(r.len() == b.len() + 1 + y.len());
    assert forall|i: int| 0 <= i < x.len() implies x[i] == y[i] by {
        assert(l[a.len() + 1 + i] == x[i] && r[b.len() + 1 + i] == y[i]);
    }
    assert(x =~= y);
}

/// The boundaries of what is hashed are unambiguous: pages whose titles and
/// descriptions hold no zero character are hashed from the same bytes only where
/// all their fields agree.
pub proof fn law_hash_input_is_unambiguous(a: Fields, b: Fields)
    requires
        !a.title.contains('\0'),
        !a.description.contains('\0'),
        !b.title.contains('\0'),
        !b.description.contains('\0'),
        hash_input(a) == hash_input(b),
    ensures
        a == b,
{
    lemma_text_has_no_zero(a.title);
    lemma_text_has_no_zero(a.description);
    lemma_text_has_no_zero(b.title);
    lemma_text_has_no_zero(b.description);
    let ra = encode_utf8(a.description) + seq![0u8] + encode_utf8(a.body);
    let rb = encode_utf8(b.description) + seq![0u8] + encode_utf8(b.body);
    assert(hash_input(a) =~= encode_utf8(a.title) + seq![0u8] + ra);
    assert(hash_input(b) =~= encode_utf8(b.title) + seq![0u8] + rb);
    lemma_split_at_zero(encode_utf8(a.title), ra, encode_utf8(b.title), rb);
    lemma_split_at_zero(
        encode_utf8(a.description),
        encode_utf8(a.body),
        encode_utf8(b.description),
        encode_utf8(b.body),
    );
    encode_utf8_decode_utf8(a.title);
    encode_utf8_decode_utf8(b.title);
    encode_utf8_decode_utf8(a.description);
    encode_utf8_decode_utf8(b.description);
    encode_utf8_decode_utf8(a.body);
    encode_utf8_decode_utf8(b.body);
}

// ---- the glossary ----

/// The brand tokens that must survive translation verbatim.
pub open spec fn glossary() -> Seq<Seq<char>> {
    seq!["Curriculo"@, "CurriculoATS"@]
}

/// All fields of a page in one text.
pub open spec fn blob(f: Fields) -> Seq<char> {
    f.title + " "@ + f.description + " "@ + f.body
}

/// Whether a brand token of the source is missing in the translation.
pub open spec fn token_lost(en: Fields, t: Fields, token: Seq<char>) -> bool {
    text::occurs(token, blob(en)) && !text::occurs(token, blob(t))
}

/// The first brand token that was lost.
pub open spec fn lost_token(en: Fields, t: Fields) -> Option<Seq<char>> {
    if token_lost(en, t, glossary()[0]) {
        Some(glossary()[0])
    } else if token_lost(en, t, glossary()[1]) {
        Some(glossary()[1])
    } else {
        None
    }
}

fn blob_of(t: &Translatable) -> (s: String)
    ensures
        s@ == blob(t@),
{
    let mut s: String = t.title.clone();
    s.append(" ");
    s.append(t.description.as_str());
    s.append(" ");
    s.append(t.body.as_str());
    s
}

/// Every brand token of the source must stand verbatim in the translation, or
/// the translation must not be written.
pub fn glossary_ok(en: &Translatable, t: &Translatable) -> (r: Result<(), CommandError>)
    ensures
        match r {
            Ok(_) => lost_token(en@, t@) is None,
            Err(e) => lost_token(en@, t@) matches Some(token) && e@ == Failure::TokenLost(token),
        },
{
    let en_blob: String = blob_of(en);
    let t_blob: String = blob_of(t);
    let tokens: Vec<&'static str> = vec!["Curriculo", "CurriculoATS"];
    for i in 0..tokens.len()
        invariant
            tokens@.len() == 2,
            tokens@[0]@ == glossary()[0],
            tokens@[1]@ == glossary()[1],
            en_blob@ == blob(en@),
            t_blob@ == blob(t@),
            forall|j: int| 0 <= j < i ==> !token_lost(en@, t@, #[trigger] glossary()[j]),
    {
        let token: &'static str = tokens[i];
        if text::contains(en_blob.as_str(), token) && !text::contains(t_blob.as_str(), token) {
            assert(i == 0 || !token_lost(en@, t@, glossary()[0]));
            return Err(Failure::TokenLost(token.to_string()));
        }
    }
    assert(!token_lost(en@, t@, glossary()[0]));
    assert(!token_lost(en@, t@, glossary()[1]));
    Ok(())
}

/// A translation passes exactly where no brand token of the source is lost.
pub proof fn law_glossary_keeps_every_token(en: Fields, t: Fields)
    ensures
        lost_token(en, t) is None <==> forall|i: int|
            0 <= i < glossary().len() && text::occurs(#[trigger] glossary()[i], blob(en))
                ==> text::occurs(glossary()[i], blob(t)),
{
    if lost_token(en, t) is None {
        assert forall|i: int|
            0 <= i < glossary().len() && text::occurs(
                #[trigger] glossary()[i],
                blob(en),
            ) implies text::occurs(glossary()[i], blob(t)) by {
            assert(i == 0 || i == 1);
        }
    } else {
        assert(token_lost(en, t, glossary()[0]) || token_lost(en, t, glossary()[1]));
    }
}

// ---- long bodies ----

/// A request that carries a later piece of a body, and nothing else.
pub open spec fn piece_of(body: Seq<char>) -> Fields {
    Fields { title: Seq::empty(), description: Seq::empty(), body }
}

/// The requests that translate a page, in order: all fields at once where the
/// body is one piece; else the title and the description with the first piece,
/// and then each other piece alone. The flag tells a piece that is sent alone.
pub open spec fn requests_of(f: Fields) -> Seq<(Fields, bool)> {
    let chunks = chunk::chunks_of(f.body);
    if chunks.len() == 1 {
        seq![(f, false)]
    } else {
        Seq::new(
            chunks.len(),
            |i: int|
                if i == 0 {
                    (Fields { body: chunks[0], ..f }, false)
                } else {
                    (piece_of(chunks[i]), true)
                },
        )
    }
}

/// The bodies of some replies in a row, with a blank line between two that are
/// not empty.
pub open spec fn joined_bodies(replies: Seq<Fields>) -> Seq<char>
    decreases replies.len(),
{
    if replies.len() == 0 {
        Seq::empty()
    } else {
        let before = joined_bodies(replies.drop_last());
        let next = replies.last().body;
        if before.len() > 0 && next.len() > 0 {
            before + "\n\n"@ + next
        } else {
            before + next
        }
    }
}

/// The translation of a page, put together from the replies to its requests: the
/// title and the description of the first, and all bodies.
pub open spec fn assembled(replies: Seq<Fields>) -> Fields {
    Fields {
        title: replies[0].title,
        description: replies[0].description,
        body: joined_bodies(replies),
    }
}

/// A single reply is the translation as it is.
pub proof fn law_one_reply_is_the_translation(reply: Fields)
    ensures
        assembled(seq![reply]) == reply,
{
    reveal_with_fuel(joined_bodies, 2);
    assert(seq![reply].drop_last() =~= Seq::<Fields>::empty());
    assert(joined_bodies(seq![reply]) =~= reply.body);
}

/// The bodies of some replies.
pub open spec fn bodies_of(replies: Seq<Fields>) -> Seq<Seq<char>> {
    replies.map_values(|f: Fields| f.body)
}

/// Joining loses nothing of the bodies and adds nothing but blank lines: but for
/// white space, the whole is the bodies in a row.
pub proof fn law_joined_bodies_keep_every_body(replies: Seq<Fields>)
    ensures
        text::ink_of(joined_bodies(replies)) == text::ink_of(text::concat_of(bodies_of(replies))),
    decreases replies.len(),
{
    let bodies = bodies_of(replies);
    if replies.len() == 0 {
        assert(joined_bodies(replies) =~= text::concat_of(bodies));
    } else {
        law_joined_bodies_keep_every_body(replies.drop_last());
        assert(bodies.drop_last() =~= bodies_of(replies.drop_last()));
        assert(bodies.last() == replies.last().body);
        let before = joined_bodies(replies.drop_last());
        let next = replies.last().body;
        let gap = "\n\n"@;
        reveal_strlit("\n\n");
        text::lemma_ink_of_blank(gap);
        text::lemma_ink_concat(before, gap);
        text::lemma_ink_concat(before + gap, next);
        text::lemma_ink_concat(before, next);
        assert(text::ink_of(before) + Seq::<char>::empty() =~= text::ink_of(before));
        text::lemma_ink_concat(text::concat_of(bodies.drop_last()), next);
    }
}

/// The requests for a page hold all of it: a service that hands back what it was
/// sent gives the title and the description, and the body but for white space.
pub proof fn law_requests_hold_the_page(f: Fields)
    ensures
        ({
            let echo = requests_of(f).map_values(|r: (Fields, bool)| r.0);
            &&& assembled(echo).title == f.title
            &&& assembled(echo).description == f.description
            &&& text::ink_of(assembled(echo).body) == text::ink_of(f.body)
        }),
{
    let chunks = chunk::chunks_of(f.body);
    let echo = requests_of(f).map_values(|r: (Fields, bool)| r.0);
    chunk::lemma_chunks_exist(f.body);
    law_joined_bodies_keep_every_body(echo);
    if chunks.len() == 1 {
        assert(bodies_of(echo) =~= seq![f.body]);
        reveal_with_fuel(text::concat_of, 2);
        assert(seq![f.body].drop_last() =~= Seq::<Seq<char>>::empty());
        assert(text::concat_of(seq![f.body]) =~= f.body);
    } else {
        assert(bodies_of(echo) =~= chunks);
        chunk::law_chunks_keep_the_body(f.body);
    }
}

/// What each of some pages says.
pub open spec fn all_fields(v: Seq<Translatable>) -> Seq<Fields> {
    v.map_values(|t: Translatable| t@)
}

/// What each of some requests says.
pub open spec fn all_requests(v: Seq<(Translatable, bool)>) -> Seq<(Fields, bool)> {
    v.map_values(|r: (Translatable, bool)| (r.0@, r.1))
}

/// The requests that translate a page.
pub fn translation_requests(fields: &Translatable) -> (requests: Vec<(Translatable, bool)>)
    ensures
        all_requests(requests@) == requests_of(fields@),
        requests@.len() > 0,
{
    let chunks: Vec<String> = chunk::chunk_body(fields.body.as_str());
    let ghost pieces = chunk::chunks_of(fields.body@);
    let mut requests: Vec<(Translatable, bool)> = Vec::new();
    if chunks.len() == 1 {
        requests.push((fields.clone(), false));
        assert(all_requests(requests@) =~= requests_of(fields@));
        return requests;
    }
    for i in 0..chunks.len()
        invariant
            pieces == chunk::chunks_of(fields@.body),
            text::views(chunks@) == pieces,
            pieces.len() != 1,
            requests@.len() == i,
            forall|j: int|
                0 <= j < i ==> (#[trigger] requests@[j]).0@ == requests_of(fields@)[j].0
                    && requests@[j].1 == requests_of(fields@)[j].1,
    {
        assert(pieces[i as int] == chunks@[i as int]@);
        if i == 0 {
            let head: Translatable = Translatable {
                title: fields.title.clone(),
                description: fields.description.clone(),
                body: chunks[0].clone(),
            };
            requests.push((head, false));
        } else {
            let piece: Translatable = Translatable {
                title: String::new(),
                description: String::new(),
                body: chunks[i].clone(),
            };
            assert(piece@.title =~= piece_of(pieces[i as int]).title);
            requests.push((piece, true));
        }
    }
    assert(all_requests(requests@) =~= requests_of(fields@));
    requests
}

/// Puts the translation of a page together from the replies to its requests.
pub fn assemble(replies: &Vec<Translatable>) -> (t: Translatable)
    requires
        replies@.len() > 0,
    ensures
        t@ == assembled(all_fields(replies@)),
{
    let ghost all = all_fields(replies@);
    let mut body: String = String::new();
    assert(all.take(0) =~= Seq::<Fields>::empty());
    for i in 0..replies.len()
        invariant
            all == all_fields(replies@),
            body@ == joined_bodies(all.take(i as int)),
    {
        proof {
            assert(all.take(i + 1).drop_last() =~= all.take(i as int));
            assert(all.take(i + 1).last() == replies@[i as int]@);
        }
        let next: &str = replies[i].body.as_str();
        if !body.as_str().is_empty() && !next.is_empty() {
            body.append("\n\n");
        }
        body.append(next);
    }
    assert(all.take(all.len() as int) =~= all);
    Translatable {
        title: replies[0].title.clone(),
        description: replies[0].description.clone(),
        body,
    }
}

/// How the translation of a page stands. `K` is the type of the state that goes
/// from one request to the next.
#[derive(Debug, PartialEq, Eq)]
pub enum Progress<K> {
    /// Send the request at this place, in this state.
    Ask(usize, K),
    /// The page is translated.
    Done(Translatable),
    /// A request failed, and nothing more is asked.
    Failed(CommandError),
}

/// Takes the answer to the next of `requests` requests for a page. The first that
/// failed ends the translation; the last reply completes it.
pub fn take_answer<K>(
    requests: usize,
    replies: &mut Vec<Translatable>,
    answer: Result<(Translatable, K), CommandError>,
) -> (p: Progress<K>)
    requires
        old(replies)@.len() < requests,
    ensures
        match answer {
            Err(e) => p == Progress::<K>::Failed(e) && final(replies)@ == old(replies)@,
            Ok((t, k)) => {
                &&& final(replies)@ == old(replies)@.push(t)
                &&& if final(replies)@.len() == requests {
                    p matches Progress::Done(d) && d@ == assembled(all_fields(final(replies)@))
                } else {
                    p == Progress::Ask(final(replies)@.len() as usize, k)
                }
            },
        },
{
    match answer {
        Err(e) => Progress::Failed(e),
        Ok((t, k)) => {
            replies.push(t);
            if replies.len() == requests {
                Progress::Done(assemble(replies))
            } else {
                Progress::Ask(replies.len(), k)
            }
        },
    }
}

/// Whether `ask`, in the state `k`, answers a request with `r`.
pub open spec fn answers<
    K,
    F: Fn(K, &Translatable, bool) -> Result<(Translatable, K), CommandError>,
>(ask: F, k: K, request: (Fields, bool), r: Result<(Translatable, K), CommandError>) -> bool {
    exists|t: Translatable| #[trigger] t@ == request.0 && ask.ensures((k, &t, request.1), r)
}

/// Whether `ask` answered the first requests of a page with `replies`, each once and
/// in order, and went from the state `start` through `states`.
pub open spec fn reached<
    K,
    F: Fn(K, &Translatable, bool) -> Result<(Translatable, K), CommandError>,
>(ask: F, f: Fields, start: K, replies: Seq<Translatable>, states: Seq<K>) -> bool {
    &&& replies.len() <= requests_of(f).len()
    &&& states.len() == replies.len() + 1
    &&& states[0] == start
    &&& forall|i: int|
        0 <= i < replies.len() ==> answers(
            ask,
            states[i],
            requests_of(f)[i],
            Ok::<(Translatable, K), CommandError>((#[trigger] replies[i], states[i + 1])),
        )
}

/// Translates the title and the description once, and the body in pieces where
/// it is long. The first request that fails ends it.
///
/// Each call takes the state that the one before gave back, and may only be made
/// with the next request in a state that was reached so: no request is made twice,
/// and none after one that failed, which gives back no state.
pub fn translate_fields_impl<
    K,
    F: Fn(K, &Translatable, bool) -> Result<(Translatable, K), CommandError>,
>(translate_one: F, state: K, fields: &Translatable) -> (r: Result<Translatable, CommandError>)
    requires
        forall|replies: Seq<Translatable>, states: Seq<K>, t: &Translatable|
            #![trigger reached(translate_one, fields@, state, replies, states), t@]
            reached(translate_one, fields@, state, replies, states) && replies.len()
                < requests_of(fields@).len() && t@ == requests_of(fields@)[replies.len() as int].0
                ==> translate_one.requires(
                (states.last(), t, requests_of(fields@)[replies.len() as int].1),
            ),
    ensures
        match r {
            Ok(t) => exists|replies: Seq<Translatable>, states: Seq<K>|
                {
                    &&& #[trigger] reached(translate_one, fields@, state, replies, states)
                    &&& replies.len() == requests_of(fields@).len()
                    &&& t@ == assembled(all_fields(replies))
                },
            Err(e) => exists|replies: Seq<Translatable>, states: Seq<K>|
                {
                    &&& #[trigger] reached(translate_one, fields@, state, replies, states)
                    &&& replies.len() < requests_of(fields@).len()
                    &&& answers(
                        translate_one,
                        states.last(),
                        requests_of(fields@)[replies.len() as int],
                        Err::<(Translatable, K), CommandError>(e),
                    )
                },
        },
{
    let requests: Vec<(Translatable, bool)> = translation_requests(fields);
    let ghost all = requests_of(fields@);
    let ghost start = state;
    let ghost mut states = seq![start];
    let mut k: K = state;
    let mut replies: Vec<Translatable> = Vec::new();
    let mut i: usize = 0;
    loop
        invariant
            all == requests_of(fields@),
            all_requests(requests@) == all,
            start == state,
            forall|replies: Seq<Translatable>, states: Seq<K>, t: &Translatable|
                #![trigger reached(translate_one, fields@, start, replies, states), t@]
                reached(translate_one, fields@, start, replies, states) && replies.len()
                    < all.len() && t@ == all[replies.len() as int].0 ==> translate_one.requires(
                    (states.last(), t, all[replies.len() as int].1),
                ),
            replies@.len() == i,
            i < requests@.len(),
            reached(translate_one, fields@, start, replies@, states),
            states.last() == k,
        decreases requests@.len() - i,
    {
        let request: &Translatable = &requests[i].0;
        let alone: bool = requests[i].1;
        assert(all[i as int] == (request@, alone));
        let answer = translate_one(k, request, alone);
        assert(answers(translate_one, states.last(), all[i as int], answer));
        proof {
            if answer is Ok {
                let (t, next) = answer->Ok_0;
                states = states.push(next);
                assert(reached(translate_one, fields@, start, replies@.push(t), states));
            }
        }
        match take_answer(requests.len(), &mut replies, answer) {
            Progress::Ask(n, next) => {
                i = n;
                k = next;
            },
            Progress::Done(d) => {
                return Ok(d);
            },
            Progress::Failed(e) => {
                return Err(e);
            },
        }
    }
}

/// Whether a client answered a request with `r`.
pub open spec fn client_asked<C: LlmClient>(
    client: &C,
    lang: &str,
    key: &str,
    request: Fields,
    r: Result<Translatable, CommandError>,
) -> bool {
    exists|t: Translatable| #[trigger]
        t@ == request && call_ensures(C::translate, (client, &t, lang, key), r)
}

/// Whether a client answered the first requests of a page with `replies`.
pub open spec fn client_all_asked<C: LlmClient>(
    client: &C,
    lang: &str,
    key: &str,
    f: Fields,
    replies: Seq<Translatable>,
) -> bool {
    &&& replies.len() <= requests_of(f).len()
    &&& forall|i: int|
        0 <= i < replies.len() ==> client_asked(
            client,
            lang,
            key,
            requests_of(f)[i].0,
            Ok::<Translatable, CommandError>(#[trigger] replies[i]),
        )
}

/// An answer that came with no state to speak of.
pub open spec fn without_state(r: Result<(Translatable, ()), CommandError>) -> Result<
    Translatable,
    CommandError,
> {
    match r {
        Ok((t, _)) => Ok(t),
        Err(e) => Err(e),
    }
}

/// Translates the fields of a page through a client, the body in pieces where it
/// is long.
pub fn translate_fields<C: LlmClient>(
    client: &C,
    fields: &Translatable,
    lang: &str,
    key: &str,
) -> (r: Result<Translatable, CommandError>)
    ensures
        match r {
            Ok(t) => exists|replies: Seq<Translatable>|
                {
                    &&& #[trigger] client_all_asked(client, lang, key, fields@, replies)
                    &&& replies.len() == requests_of(fields@).len()
                    &&& t@ == assembled(all_fields(replies))
                },
            Err(e) => exists|replies: Seq<Translatable>|
                {
                    &&& #[trigger] client_all_asked(client, lang, key, fields@, replies)
                    &&& replies.len() < requests_of(fields@).len()
                    &&& client_asked(
                        client,
                        lang,
                        key,
                        requests_of(fields@)[replies.len() as int].0,
                        Err::<Translatable, CommandError>(e),
                    )
                },
        },
{
    let ask = |k: (), t: &Translatable, alone: bool| -> (r: Result<
        (Translatable, ()),
        CommandError,
    >)
        ensures
            client_asked(
                client,
                lang,
                key,
                if alone {
                    piece_of(t@.body)
                } else {
                    t@
                },
                without_state(r),
            ),
        {
            let payload: Translatable = if alone {
                Translatable {
                    title: String::new(),
                    description: String::new(),
                    body: t.body.clone(),
                }
            } else {
                t.clone()
            };
            assert(alone ==> payload@.title =~= piece_of(t@.body).title);
            let r = client.translate(&payload, lang, key);
            assert(payload@ == if alone {
                piece_of(t@.body)
            } else {
                t@
            });
            match r {
                Ok(u) => Ok((u, ())),
                Err(e) => Err(e),
            }
        };
    let r = translate_fields_impl(ask, (), fields);
    proof {
        let all = requests_of(fields@);
        assert forall|i: int, k: (), a: Result<(Translatable, ()), CommandError>|
            0 <= i < all.len() && #[trigger] answers(ask, k, all[i], a) implies client_asked(
            client,
            lang,
            key,
            all[i].0,
            without_state(a),
        ) by {
            let t = choose|t: Translatable| #[trigger]
                t@ == all[i].0 && ask.ensures((k, &t, all[i].1), a);
            assert(ask.ensures((k, &t, all[i].1), a));
        }
        assert forall|replies: Seq<Translatable>, states: Seq<()>|
            #[trigger] reached(ask, fields@, (), replies, states) implies client_all_asked(
            client,
            lang,
            key,
            fields@,
            replies,
        ) by {
            assert forall|i: int| 0 <= i < replies.len() implies client_asked(
                client,
                lang,
                key,
                all[i].0,
                Ok::<Translatable, CommandError>(#[trigger] replies[i]),
            ) by {
                let a = Ok::<(Translatable, ()), CommandError>((replies[i], states[i + 1]));
                assert(answers(ask, states[i], all[i], a));
            }
        }
    }
    r
}

// ---- what is sent, kept and put together ----

/// The source hash is that of the title, the description and the body in a row, with a
/// zero character between two.
pub proof fn law_what_is_hashed(f: Fields)
    ensures
        hash_input(f) == encode_utf8(
            f.title + seq!['\0'] + f.description + seq!['\0'] + f.body,
        ),
        source_hash_of(f) == digest::hex_of(
            digest::sha256_digest(
                encode_utf8(f.title + seq!['\0'] + f.description + seq!['\0'] + f.body),
            ),
        ),
{
    let z = seq!['\0'];
    text::lemma_encode_concat(f.title + z + f.description + z, f.body);
    text::lemma_encode_concat(f.title + z + f.description, z);
    text::lemma_encode_concat(f.title + z, f.description);
    text::lemma_encode_concat(f.title, z);
    assert(encode_utf8(z) =~= seq![0u8]) by {
        reveal_with_fuel(encode_utf8, 2);
        assert(z.drop_first() =~= Seq::<char>::empty());
        assert(0u32 & 0x7F == 0) by (bit_vector);
    }
    assert(hash_input(f) =~= encode_utf8(f.title + z + f.description + z + f.body));
}

/// Whether a text stands in a field of a page.
pub open spec fn in_a_field(token: Seq<char>, f: Fields) -> bool {
    ||| text::occurs(token, f.title)
    ||| text::occurs(token, f.description)
    ||| text::occurs(token, f.body)
}

proof fn lemma_occurs_on_one_side(token: Seq<char>, a: Seq<char>, b: Seq<char>)
    requires
        token.len() > 0,
        !token.contains(' '),
    ensures
        text::occurs(token, a + " "@ + b) <==> text::occurs(token, a) || text::occurs(token, b),
{
    reveal_strlit(" ");
    let s = a + " "@ + b;
    let n = a.len() as int;
    let k = token.len() as int;
    assert(s[n] == ' ');
    if text::occurs(token, s) {
        let i = choose|i: int| text::occurs_at(token, s, i);
        assert(s.subrange(i, i + k) == token);
        if i <= n < i + k {
            assert(token[n - i] == s[n]);
            assert(token.contains(' '));
        }
        if i + k <= n {
            assert(a.subrange(i, i + k) =~= token);
            assert(text::occurs_at(token, a, i));
        } else {
            assert(b.subrange(i - n - 1, i - n - 1 + k) =~= token);
            assert(text::occurs_at(token, b, i - n - 1));
        }
    }
    if text::occurs(token, a) {
        let i = choose|i: int| text::occurs_at(token, a, i);
        assert(s.subrange(i, i + k) =~= a.subrange(i, i + k));
        assert(text::occurs_at(token, s, i));
    }
    if text::occurs(token, b) {
        let i = choose|i: int| text::occurs_at(token, b, i);
        assert(s.subrange(i + n + 1, i + n + 1 + k) =~= b.subrange(i, i + k));
        assert(text::occurs_at(token, s, i + n + 1));
    }
}

proof fn lemma_token_in_a_field(token: Seq<char>, f: Fields)
    requires
        token.len() > 0,
        !token.contains(' '),
    ensures
        text::occurs(token, blob(f)) <==> in_a_field(token, f),
{
    let gap = " "@;
    lemma_occurs_on_one_side(token, f.title + gap + f.description, f.body);
    lemma_occurs_on_one_side(token, f.title, f.description);
}

/// The brand tokens are `Curriculo` and `CurriculoATS`. A translation lost one exactly
/// where it stands in the title, the description or the body of the source and in none
/// of those of the translation; of two the first is told.
pub proof fn law_brand_tokens(en: Fields, t: Fields)
    ensures
        ({
            let first = in_a_field("Curriculo"@, en) && !in_a_field("Curriculo"@, t);
            let second = in_a_field("CurriculoATS"@, en) && !in_a_field("CurriculoATS"@, t);
            &&& first ==> lost_token(en, t) == Some("Curriculo"@)
            &&& !first && second ==> lost_token(en, t) == Some("CurriculoATS"@)
            &&& !first && !second ==> lost_token(en, t) is None
        }),
{
    reveal_strlit("Curriculo");
    reveal_strlit("CurriculoATS");
    lemma_token_in_a_field("Curriculo"@, en);
    lemma_token_in_a_field("Curriculo"@, t);
    lemma_token_in_a_field("CurriculoATS"@, en);
    lemma_token_in_a_field("CurriculoATS"@, t);
}

/// A page whose body is one piece is sent as it is. Of every other page each piece of the
/// body is sent by itself, in order; the first carries the title and the description, and
/// the others carry nothing else, and tell so.
pub proof fn law_requests_of_a_page(f: Fields)
    ensures
        ({
            let pieces = chunk::chunks_of(f.body);
            let requests = requests_of(f);
            &&& requests.len() == pieces.len()
            &&& pieces.len() == 1 ==> requests[0] == (f, false)
            &&& pieces.len() > 1 ==> {
                &&& requests[0].0.title == f.title
                &&& requests[0].0.description == f.description
                &&& !requests[0].1
            }
            &&& pieces.len() > 1 ==> forall|i: int|
                0 <= i < requests.len() ==> (#[trigger] requests[i]).0.body == pieces[i]
            &&& forall|i: int|
                0 < i < requests.len() ==> (#[trigger] requests[i]).0.title.len() == 0
                    && requests[i].0.description.len() == 0 && requests[i].1
        }),
{
}

/// The bodies of two runs of replies are joined by a blank line, and by nothing where one
/// of them is empty. A reply by itself is joined to its body.
pub proof fn law_joining_replies(a: Seq<Fields>, b: Seq<Fields>, f: Fields)
    ensures
        joined_bodies(a + b) == if joined_bodies(a).len() > 0 && joined_bodies(b).len() > 0 {
            joined_bodies(a) + seq!['\n', '\n'] + joined_bodies(b)
        } else {
            joined_bodies(a) + joined_bodies(b)
        },
        joined_bodies(seq![f]) == f.body,
        joined_bodies(Seq::<Fields>::empty()).len() == 0,
    decreases b.len(),
{
    law_one_reply_is_the_translation(f);
    reveal_strlit("\n\n");
    let gap = seq!['\n', '\n'];
    assert("\n\n"@ =~= gap);
    let x = joined_bodies(a);
    if b.len() == 0 {
        assert(a + b =~= a);
        assert(x + joined_bodies(b) =~= x);
    } else {
        let rest = b.drop_last();
        let next = b.last().body;
        law_joining_replies(a, rest, f);
        assert((a + b).drop_last() =~= a + rest);
        assert((a + b).last() == b.last());
        let y = joined_bodies(rest);
        if x.len() > 0 && y.len() > 0 {
            assert(x + gap + y + gap + next =~= x + gap + (y + gap + next));
            assert(x + gap + y + next =~= x + gap + (y + next));
        } else {
            assert(x + y + gap + next =~= x + (y + gap + next));
            assert(x + y + next =~= x + (y + next));
            if y.len() == 0 {
                assert(x + y =~= x);
                assert(y + next =~= next);
            }
            if x.len() == 0 {
                assert(x + y =~= y);
            }
        }
    }
}

/// A translation has the title and the description of the first reply, and the bodies of
/// all of them.
pub proof fn law_translation_is_put_together(replies: Seq<Fields>)
    ensures
        assembled(replies).title == replies[0].title,
        assembled(replies).description == replies[0].description,
        assembled(replies).body == joined_bodies(replies),
{
}

/// A translation is refused exactly where it lost a brand token, which the failure tells.
pub proof fn law_translation_is_refused(
    en: &Translatable,
    t: &Translatable,
    r: Result<(), CommandError>,
)
    requires
        call_ensures(glossary_ok, (en, t), r),
    ensures
        r is Ok <==> (in_a_field("Curriculo"@, en@) ==> in_a_field("Curriculo"@, t@)) && (
        in_a_field("CurriculoATS"@, en@) ==> in_a_field("CurriculoATS"@, t@)),
        r matches Err(e) ==> (e@ matches Failure::TokenLost(token) && in_a_field(token, en@)
            && !in_a_field(token, t@) && (token == "Curriculo"@ || token == "CurriculoATS"@)),
{
    law_brand_tokens(en@, t@);
}

/// A request that failed ends the translation with its failure. A reply is kept after those
/// before it; the last one completes the translation, and after any other the next request
/// is to be sent.
pub proof fn law_taken_answer<K>()
    ensures
        forall|
            requests: usize,
            replies: &mut Vec<Translatable>,
            answer: Result<(Translatable, K), CommandError>,
            p: Progress<K>,
        | #[trigger]
            call_ensures(take_answer::<K>, (requests, replies, answer), p) && (*replies)@.len()
                < requests ==> match answer {
                Err(e) => p == Progress::<K>::Failed(e) && (*final(replies))@ == (*replies)@,
                Ok((t, k)) => {
                    &&& (*final(replies))@ == (*replies)@.push(t)
                    &&& (*replies)@.len() + 1 < requests ==> (p matches Progress::Ask(n, next) && n
                        == (*replies)@.len() + 1 && next == k)
                    &&& (*replies)@.len() + 1 == requests ==> (p matches Progress::Done(d) && d@
                        == assembled(all_fields((*replies)@.push(t))))
                },
            },
{
}

proof fn lemma_echoed_replies(f: Fields, replies: Seq<Translatable>)
    requires
        replies.len() == requests_of(f).len(),
        forall|i: int| 0 <= i < replies.len() ==> (#[trigger] replies[i])@ == requests_of(f)[i].0,
    ensures
        assembled(all_fields(replies)).title == f.title,
        assembled(all_fields(replies)).description == f.description,
        text::ink_of(assembled(all_fields(replies)).body) == text::ink_of(f.body),
        chunk::chunks_of(f.body).len() == 1 ==> assembled(all_fields(replies)) == f,
{
    law_requests_hold_the_page(f);
    let echo = requests_of(f).map_values(|r: (Fields, bool)| r.0);
    assert(all_fields(replies) =~= echo);
    if chunk::chunks_of(f.body).len() == 1 {
        assert(echo =~= seq![f]);
        law_one_reply_is_the_translation(f);
    }
}

/// A translator that answers each request with what it was asked gives back the page: its
/// title, its description and its body but for white space, and a body of one piece exactly.
pub proof fn law_echo_gives_the_page_back<
    K,
    F: Fn(K, &Translatable, bool) -> Result<(Translatable, K), CommandError>,
>(ask: F, state: K, fields: &Translatable, r: Result<Translatable, CommandError>)
    requires
        call_ensures(translate_fields_impl::<K, F>, (ask, state, fields), r),
        forall|k: K, t: &Translatable, alone: bool, a: Result<(Translatable, K), CommandError>|
            #[trigger]
            ask.ensures((k, t, alone), a) ==> (a matches Ok((u, _)) && u@ == t@),
    ensures
        r matches Ok(u) && {
            &&& u@.title == fields@.title
            &&& u@.description == fields@.description
            &&& text::ink_of(u@.body) == text::ink_of(fields@.body)
            &&& chunk::chunks_of(fields@.body).len() == 1 ==> u@ == fields@
        },
{
    let f = fields@;
    assert forall|replies: Seq<Translatable>, states: Seq<K>|
        #[trigger] reached(ask, f, state, replies, states) implies forall|i: int|
        0 <= i < replies.len() ==> (#[trigger] replies[i])@ == requests_of(f)[i].0 by {
        assert forall|i: int| 0 <= i < replies.len() implies (#[trigger] replies[i])@
            == requests_of(f)[i].0 by {
            let a = Ok::<(Translatable, K), CommandError>((replies[i], states[i + 1]));
            assert(answers(ask, states[i], requests_of(f)[i], a));
            let t = choose|t: Translatable| #[trigger]
                t@ == requests_of(f)[i].0 && ask.ensures((states[i], &t, requests_of(f)[i].1), a);
            assert(ask.ensures((states[i], &t, requests_of(f)[i].1), a));
        }
    }
    match r {
        Ok(u) => {
            let (replies, states) = choose|replies: Seq<Translatable>, states: Seq<K>|
                {
                    &&& #[trigger] reached(ask, f, state, replies, states)
                    &&& replies.len() == requests_of(f).len()
                    &&& u@ == assembled(all_fields(replies))
                };
            lemma_echoed_replies(f, replies);
        },
        Err(e) => {
            let (replies, states) = choose|replies: Seq<Translatable>, states: Seq<K>|
                {
                    &&& #[trigger] reached(ask, f, state, replies, states)
                    &&& replies.len() < requests_of(f).len()
                    &&& answers(
                        ask,
                        states.last(),
                        requests_of(f)[replies.len() as int],
                        Err::<(Translatable, K), CommandError>(e),
                    )
                };
            let q = requests_of(f)[replies.len() as int];
            let a = Err::<(Translatable, K), CommandError>(e);
            let t = choose|t: Translatable| #[trigger]
                t@ == q.0 && ask.ensures((states.last(), &t, q.1), a);
            assert(ask.ensures((states.last(), &t, q.1), a));
        },
    }
}

/// A client that hands back what it is asked gives back the page in the same way.
pub proof fn law_echoing_client_gives_the_page_back<C: LlmClient>(
    client: &C,
    fields: &Translatable,
    lang: &str,
    key: &str,
    r: Result<Translatable, CommandError>,
)
    requires
        call_ensures(translate_fields::<C>, (client, fields, lang, key), r),
        forall|t: &Translatable, a: Result<Translatable, CommandError>| #[trigger]
            call_ensures(C::translate, (client, t, lang, key), a) ==> (a matches Ok(u) && u@
                == t@),
    ensures
        r matches Ok(u) && {
            &&& u@.title == fields@.title
            &&& u@.description == fields@.description
            &&& text::ink_of(u@.body) == text::ink_of(fields@.body)
            &&& chunk::chunks_of(fields@.body).len() == 1 ==> u@ == fields@
        },
{
    let f = fields@;
    assert forall|replies: Seq<Translatable>|
        #[trigger] client_all_asked(client, lang, key, f, replies) implies forall|i: int|
        0 <= i < replies.len() ==> (#[trigger] replies[i])@ == requests_of(f)[i].0 by {
        assert forall|i: int| 0 <= i < replies.len() implies (#[trigger] replies[i])@
            == requests_of(f)[i].0 by {
            let a = Ok::<Translatable, CommandError>(replies[i]);
            assert(client_asked(client, lang, key, requests_of(f)[i].0, a));
            let t = choose|t: Translatable| #[trigger]
                t@ == requests_of(f)[i].0 && call_ensures(C::translate, (client, &t, lang, key), a);
            assert(call_ensures(C::translate, (client, &t, lang, key), a));
        }
    }
    match r {
        Ok(u) => {
            let replies = choose|replies: Seq<Translatable>|
                {
                    &&& #[trigger] client_all_asked(client, lang, key, f, replies)
                    &&& replies.len() == requests_of(f).len()
                    &&& u@ == assembled(all_fields(replies))
                };
            lemma_echoed_replies(f, replies);
        },
        Err(e) => {
            let replies = choose|replies: Seq<Translatable>|
                {
                    &&& #[trigger] client_all_asked(client, lang, key, f, replies)
                    &&& replies.len() < requests_of(f).len()
                    &&& client_asked(
                        client,
                        lang,
                        key,
                        requests_of(f)[replies.len() as int].0,
                        Err::<Translatable, CommandError>(e),
                    )
                };
            let q = requests_of(f)[replies.len() as int].0;
            let a = Err::<Translatable, CommandError>(e);
            let t = choose|t: Translatable| #[trigger]
                t@ == q && call_ensures(C::translate, (client, &t, lang, key), a);
            assert(call_ensures(C::translate, (client, &t, lang, key), a));
        },
    }
}

} // verus!
