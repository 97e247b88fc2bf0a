//! Text as sequences of characters: the white space, lines and words of a page,
//! and the small searches that the rest of the library is built from.
use vstd::prelude::*;
use vstd::utf8::*;

verus! {

/// [`String::push`] of std: adds one character at the end and keeps the rest.
pub assume_specification[ String::push ](s: &mut String, c: char)
    ensures
        final(s)@ == old(s)@.push(c),
;

// ---- what the texts are ----

/// The characters with the Unicode property `White_Space`.
pub open spec fn white_space(c: char) -> bool {
    let u = c as u32;
    ||| 0x9 <= u <= 0xD
    ||| u == 0x20
    ||| u == 0x85
    ||| u == 0xA0
    ||| u == 0x1680
    ||| 0x2000 <= u <= 0x200A
    ||| u == 0x2028
    ||| u == 0x2029
    ||| u == 0x202F
    ||| u == 0x205F
    ||| u == 0x3000
}

/// `s` without its leading white space.
pub open spec fn trim_start_of(s: Seq<char>) -> Seq<char>
    decreases s.len(),
{
    if s.len() > 0 && white_space(s.first()) {
        trim_start_of(s.drop_first())
    } else {
        s
    }
}

/// `s` without its trailing white space.
pub open spec fn trim_end_of(s: Seq<char>) -> Seq<char>
    decreases s.len(),
{
    if s.len() > 0 && white_space(s.last()) {
        trim_end_of(s.drop_last())
    } else {
        s
    }
}

/// `s` without white space at either end.
pub open spec fn trim_of(s: Seq<char>) -> Seq<char> {
    trim_end_of(trim_start_of(s))
}

/// A line without the carriage return that belongs to its line end.
pub open spec fn without_cr(line: Seq<char>) -> Seq<char> {
    if line.len() > 0 && line.last() == '\r' {
        line.drop_last()
    } else {
        line
    }
}

/// The position of the first `c` in `s`, or the length of `s`.
pub open spec fn position_of(s: Seq<char>, c: char) -> int
    decreases s.len(),
{
    if s.len() == 0 || s.first() == c {
        0
    } else {
        1 + position_of(s.drop_first(), c)
    }
}

/// The lines of `s`: each ends at a line feed, which is dropped with a carriage
/// return right before it; the last one may end with the text.
pub open spec fn lines_of(s: Seq<char>) -> Seq<Seq<char>>
    decreases s.len(),
{
    if s.len() == 0 {
        Seq::empty()
    } else {
        let n = position_of(s, '\n');
        if 0 <= n < s.len() {
            seq![without_cr(s.take(n))] + lines_of(s.skip(n + 1))
        } else {
            seq![s]
        }
    }
}

/// The number of words of `s`: its runs of characters other than white space.
pub open spec fn words_of(s: Seq<char>) -> nat
    decreases s.len(),
{
    if s.len() == 0 {
        0
    } else {
        words_of(s.drop_last()) + if !white_space(s.last()) && (s.len() == 1 || white_space(
            s[s.len() - 2],
        )) {
            1nat
        } else {
            0nat
        }
    }
}

/// Whether `needle` stands somewhere in `s`.
pub open spec fn occurs(needle: Seq<char>, s: Seq<char>) -> bool {
    exists|i: int| occurs_at(needle, s, i)
}

/// Whether `needle` stands in `s` at position `i`.
pub open spec fn occurs_at(needle: Seq<char>, s: Seq<char>, i: int) -> bool {
    &&& 0 <= i
    &&& i + needle.len() <= s.len()
    &&& s.subrange(i, i + needle.len()) == needle
}

/// The beginning of a text, up to `n` characters.
pub open spec fn beginning(s: Seq<char>, n: int) -> Seq<char> {
    if s.len() <= n {
        s
    } else {
        s.take(n)
    }
}

/// The number of bytes of `s` in UTF-8.
pub open spec fn byte_len(s: Seq<char>) -> nat {
    encode_utf8(s).len()
}

/// What is left of `s` when its white space is taken away.
pub open spec fn ink_of(s: Seq<char>) -> Seq<char> {
    s.filter(|c: char| !white_space(c))
}

/// What each string of a list says.
pub open spec fn views(v: Seq<String>) -> Seq<Seq<char>> {
    v.map_values(|s: String| s@)
}

/// What an optional string says.
pub open spec fn opt_view(s: Option<String>) -> Option<Seq<char>> {
    match s {
        Some(t) => Some(t@),
        None => None,
    }
}

// ---- the functions ----

/// Whether `c` has the Unicode property `White_Space`.
pub fn is_white_space(c: char) -> (b: bool)
    ensures
        b == white_space(c),
{
    let u: u32 = c as u32;
    (0x9 <= u && u <= 0xD) || u == 0x20 || u == 0x85 || u == 0xA0 || u == 0x1680 || (0x2000 <= u
        && u <= 0x200A) || u == 0x2028 || u == 0x2029 || u == 0x202F || u == 0x205F || u == 0x3000
}

/// The characters of `s`, in order.
pub fn chars_of(s: &str) -> (v: Vec<char>)
    ensures
        v@ == s@,
{
    let mut v: Vec<char> = Vec::new();
    for c in it: s.chars()
        invariant
            it.seq() == s@,
            v@ == s@.take(it.index()),
    {
        v.push(c);
        assert(v@ =~= s@.take(it.index() + 1));
    }
    assert(s@.take(s@.len() as int) =~= s@);
    v
}

/// The characters from `from` up to `to`, as a string.
pub fn string_of(v: &Vec<char>, from: usize, to: usize) -> (s: String)
    requires
        from <= to <= v@.len(),
    ensures
        s@ == v@.subrange(from as int, to as int),
{
    let mut s: String = String::new();
    for i in from..to
        invariant
            from <= to <= v@.len(),
            s@ == v@.subrange(from as int, i as int),
    {
        s.push(v[i]);
        assert(s@ =~= v@.subrange(from as int, i + 1));
    }
    s
}

/// The number of bytes of `s`.
pub fn byte_count(s: &str) -> (n: usize)
    ensures
        n == byte_len(s@),
{
    s.as_bytes().len()
}

/// Whether `a` and `b` say the same.
pub fn same(a: &str, b: &str) -> (r: bool)
    ensures
        r == (a@ == b@),
{
    let x: Vec<char> = chars_of(a);
    let y: Vec<char> = chars_of(b);
    if x.len() != y.len() {
        return false;
    }
    for i in 0..x.len()
        invariant
            x@ == a@,
            y@ == b@,
            x@.len() == y@.len(),
            forall|j: int| 0 <= j < i ==> x@[j] == y@[j],
    {
        if x[i] != y[i] {
            return false;
        }
    }
    assert(a@ =~= b@);
    true
}

proof fn lemma_trim_start_at(s: Seq<char>, i: int)
    requires
        0 <= i <= s.len(),
        forall|j: int| 0 <= j < i ==> white_space(#[trigger] s[j]),
        i == s.len() || !white_space(s[i]),
    ensures
        trim_start_of(s) == s.skip(i),
    decreases i,
{
    if i > 0 {
        assert(forall|j: int| 0 <= j < i - 1 ==> s.drop_first()[j] == s[j + 1]);
        lemma_trim_start_at(s.drop_first(), i - 1);
        assert(s.drop_first().skip(i - 1) =~= s.skip(i));
    } else {
        assert(s.skip(0) =~= s);
    }
}

proof fn lemma_trim_end_at(s: Seq<char>, i: int)
    requires
        0 <= i <= s.len(),
        forall|j: int| i <= j < s.len() ==> white_space(#[trigger] s[j]),
        i == 0 || !white_space(s[i - 1]),
    ensures
        trim_end_of(s) == s.take(i),
    decreases s.len() - i,
{
    if i < s.len() {
        assert(forall|j: int| i <= j < s.len() - 1 ==> s.drop_last()[j] == s[j]);
        lemma_trim_end_at(s.drop_last(), i);
        assert(s.drop_last().take(i) =~= s.take(i));
    } else {
        assert(s.take(i) =~= s);
    }
}

/// Where the white space at the end of `v[from..]` begins.
fn end_of_ink(v: &Vec<char>, from: usize) -> (hi: usize)
    requires
        from <= v@.len(),
    ensures
        from <= hi <= v@.len(),
        forall|j: int| hi <= j < v@.len() ==> white_space(#[trigger] v@[j]),
        hi == from || !white_space(v@[hi - 1]),
{
    let mut hi: usize = v.len();
    while hi > from && is_white_space(v[hi - 1])
        invariant
            from <= hi <= v@.len(),
            forall|j: int| hi <= j < v@.len() ==> white_space(#[trigger] v@[j]),
        decreases hi,
    {
        hi = hi - 1;
    }
    hi
}

/// `s` without white space at either end.
pub fn trim(s: &str) -> (t: String)
    ensures
        t@ == trim_of(s@),
{
    let v: Vec<char> = chars_of(s);
    let mut lo: usize = 0;
    while lo < v.len() && is_white_space(v[lo])
        invariant
            v@ == s@,
            lo <= v@.len(),
            forall|j: int| 0 <= j < lo ==> white_space(#[trigger] v@[j]),
        decreases v@.len() - lo,
    {
        lo = lo + 1;
    }
    let hi: usize = end_of_ink(&v, lo);
    proof {
        lemma_trim_start_at(v@, lo as int);
        let rest = v@.skip(lo as int);
        assert(forall|j: int| 0 <= j < rest.len() ==> rest[j] == v@[j + lo]);
        lemma_trim_end_at(rest, hi - lo);
        assert(rest.take(hi - lo) =~= v@.subrange(lo as int, hi as int));
    }
    string_of(&v, lo, hi)
}

/// `s` without white space at its end.
pub fn trim_end(s: &str) -> (t: String)
    ensures
        t@ == trim_end_of(s@),
{
    let v: Vec<char> = chars_of(s);
    let hi: usize = end_of_ink(&v, 0);
    proof {
        lemma_trim_end_at(v@, hi as int);
        assert(v@.take(hi as int) =~= v@.subrange(0, hi as int));
    }
    string_of(&v, 0, hi)
}

/// The position of `c` is the first place where it stands.
pub proof fn lemma_position_at(s: Seq<char>, c: char, i: int)
    requires
        0 <= i <= s.len(),
        forall|j: int| 0 <= j < i ==> #[trigger] s[j] != c,
        i == s.len() || s[i] == c,
    ensures
        position_of(s, c) == i,
    decreases i,
{
    if i > 0 {
        assert(forall|j: int| 0 <= j < i - 1 ==> s.drop_first()[j] == s[j + 1]);
        lemma_position_at(s.drop_first(), c, i - 1);
    }
}

/// The lines of `s`.
pub fn lines(s: &str) -> (out: Vec<String>)
    ensures
        views(out@) == lines_of(s@),
{
    let v: Vec<char> = chars_of(s);
    let n: usize = v.len();
    let mut out: Vec<String> = Vec::new();
    let mut from: usize = 0;
    assert(v@.skip(0) =~= v@);
    assert(views(out@) + lines_of(v@) =~= lines_of(v@));
    while from < n
        invariant
            v@ == s@,
            n == v@.len(),
            from <= n,
            views(out@) + lines_of(v@.skip(from as int)) == lines_of(v@),
        decreases n - from,
    {
        let mut to: usize = from;
        while to < n && v[to] != '\n'
            invariant
                n == v@.len(),
                from <= to <= n,
                forall|j: int| from <= j < to ==> #[trigger] v@[j] != '\n',
            decreases n - to,
        {
            to = to + 1;
        }
        let ghost rest = v@.skip(from as int);
        proof {
            assert(forall|j: int| 0 <= j < rest.len() ==> rest[j] == v@[j + from]);
            lemma_position_at(rest, '\n', to - from);
        }
        let ghost before = out@;
        if to < n {
            let end: usize = if to > from && v[to - 1] == '\r' { to - 1 } else { to };
            let line: String = string_of(&v, from, end);
            assert(without_cr(rest.take(to - from)) =~= line@);
            assert(rest.skip(to - from + 1) =~= v@.skip(to + 1));
            out.push(line);
            assert(views(out@) =~= views(before).push(line@));
            assert(views(out@) + lines_of(v@.skip(to + 1)) =~= views(before) + lines_of(rest));
            from = to + 1;
        } else {
            let line: String = string_of(&v, from, n);
            assert(rest =~= line@);
            out.push(line);
            assert(views(out@) =~= views(before).push(line@));
            from = n;
            assert(lines_of(v@.skip(n as int)) =~= Seq::<Seq<char>>::empty());
            assert(views(out@) + lines_of(v@.skip(n as int)) =~= views(before) + lines_of(rest));
        }
    }
    assert(lines_of(v@.skip(n as int)) =~= Seq::<Seq<char>>::empty());
    assert(views(out@) =~= lines_of(s@));
    out
}

/// The number of words of `s`.
pub fn word_count(s: &str) -> (n: usize)
    ensures
        n == words_of(s@),
        n <= s@.len(),
{
    let v: Vec<char> = chars_of(s);
    let mut n: usize = 0;
    for i in 0..v.len()
        invariant
            v@ == s@,
            n == words_of(v@.take(i as int)),
            n <= i,
    {
        proof {
            let t = v@.take(i + 1);
            assert(t.drop_last() =~= v@.take(i as int));
            if i > 0 {
                assert(t[i - 1] == v@[i - 1]);
            }
        }
        if !is_white_space(v[i]) && (i == 0 || is_white_space(v[i - 1])) {
            n = n + 1;
        }
    }
    assert(v@.take(v@.len() as int) =~= v@);
    n
}

/// Whether `needle` stands in `v` at position `i`.
fn stands_at(needle: &Vec<char>, v: &Vec<char>, i: usize) -> (b: bool)
    requires
        i + needle@.len() <= v@.len(),
    ensures
        b == occurs_at(needle@, v@, i as int),
{
    let n: usize = v.len();
    for j in 0..needle.len()
        invariant
            n == v@.len(),
            i + needle@.len() <= n,
            forall|k: int| 0 <= k < j ==> v@[i + k] == needle@[k],
    {
        if v[i + j] != needle[j] {
            assert(v@.subrange(i as int, i + needle@.len())[j as int] == v@[i + j]);
            return false;
        }
    }
    assert(v@.subrange(i as int, i + needle@.len()) =~= needle@);
    true
}

/// Whether `needle` stands somewhere in `s`.
pub fn contains(s: &str, needle: &str) -> (b: bool)
    ensures
        b == occurs(needle@, s@),
{
    let v: Vec<char> = chars_of(s);
    let w: Vec<char> = chars_of(needle);
    if w.len() > v.len() {
        assert forall|i: int| !occurs_at(needle@, s@, i) by {}
        return false;
    }
    let last: usize = v.len() - w.len();
    let mut i: usize = 0;
    while i <= last
        invariant
            v@ == s@,
            w@ == needle@,
            w@.len() <= v@.len(),
            last == v@.len() - w@.len(),
            i <= last + 1,
            forall|j: int| 0 <= j < i ==> !occurs_at(w@, v@, j),
        decreases last + 1 - i,
    {
        if stands_at(&w, &v, i) {
            return true;
        }
        if i == last {
            assert forall|j: int| !occurs_at(needle@, s@, j) by {}
            return false;
        }
        i = i + 1;
    }
    false
}

/// Whether `s` begins with `prefix`.
pub fn starts_with(s: &str, prefix: &str) -> (b: bool)
    ensures
        b == prefix@.is_prefix_of(s@),
{
    let v: Vec<char> = chars_of(s);
    let w: Vec<char> = chars_of(prefix);
    w.len() <= v.len() && stands_at(&w, &v, 0)
}

/// `s` without `suffix`, where it ends so.
pub fn strip_suffix(s: &str, suffix: &str) -> (r: Option<String>)
    ensures
        match r {
            Some(t) => suffix@.is_suffix_of(s@) && t@ == s@.take(s@.len() - suffix@.len()),
            None => !suffix@.is_suffix_of(s@),
        },
{
    let v: Vec<char> = chars_of(s);
    let w: Vec<char> = chars_of(suffix);
    if w.len() <= v.len() && stands_at(&w, &v, v.len() - w.len()) {
        Some(string_of(&v, 0, v.len() - w.len()))
    } else {
        None
    }
}

/// Whether `s` ends with `suffix`.
pub fn ends_with(s: &str, suffix: &str) -> (b: bool)
    ensures
        b == suffix@.is_suffix_of(s@),
{
    strip_suffix(s, suffix).is_some()
}

/// Whether `s` is one of some strings.
pub fn among(list: &Vec<String>, s: &str) -> (b: bool)
    ensures
        b == views(list@).contains(s@),
{
    for i in 0..list.len()
        invariant
            forall|j: int| 0 <= j < i ==> #[trigger] views(list@)[j] != s@,
    {
        assert(views(list@)[i as int] == list@[i as int]@);
        if same(list[i].as_str(), s) {
            return true;
        }
    }
    false
}

/// The first 200 characters of `s`.
pub fn take200(s: &str) -> (t: String)
    ensures
        t@ == beginning(s@, 200),
{
    take_chars(s, 200)
}

/// The first 160 characters of `s`.
pub fn take160(s: &str) -> (t: String)
    ensures
        t@ == beginning(s@, 160),
{
    take_chars(s, 160)
}

/// The first `n` characters of `s`.
pub fn take_chars(s: &str, n: usize) -> (t: String)
    ensures
        t@ == beginning(s@, n as int),
{
    let v: Vec<char> = chars_of(s);
    let end: usize = if v.len() <= n { v.len() } else { n };
    assert(v@.subrange(0, v@.len() as int) =~= v@);
    string_of(&v, 0, end)
}

// ---- properties of bytes and ink ----

/// The bytes of two texts in a row are the bytes of both.
pub proof fn lemma_encode_concat(a: Seq<char>, b: Seq<char>)
    ensures
        encode_utf8(a + b) == encode_utf8(a) + encode_utf8(b),
    decreases a.len(),
{
    if a.len() == 0 {
        assert(a + b =~= b);
        assert(encode_utf8(a) + encode_utf8(b) =~= encode_utf8(b));
    } else {
        assert((a + b).drop_first() =~= a.drop_first() + b);
        lemma_encode_concat(a.drop_first(), b);
        assert(encode_utf8(a + b) =~= encode_utf8(a) + encode_utf8(b));
    }
}

/// A part of a text at its beginning has no more bytes than the text.
pub proof fn lemma_byte_len_take(s: Seq<char>, n: int)
    requires
        0 <= n <= s.len(),
    ensures
        byte_len(s.take(n)) <= byte_len(s),
{
    lemma_encode_concat(s.take(n), s.skip(n));
    assert(s.take(n) + s.skip(n) =~= s);
}

/// A text without its trailing white space is a beginning of it.
pub proof fn lemma_trim_end_prefix(s: Seq<char>)
    ensures
        trim_end_of(s).len() <= s.len(),
        trim_end_of(s) == s.take(trim_end_of(s).len() as int),
        forall|i: int| trim_end_of(s).len() <= i < s.len() ==> white_space(#[trigger] s[i]),
    decreases s.len(),
{
    if s.len() > 0 && white_space(s.last()) {
        lemma_trim_end_prefix(s.drop_last());
        let n = trim_end_of(s).len() as int;
        assert(s.drop_last().take(n) =~= s.take(n));
        assert forall|i: int| n <= i < s.len() implies white_space(#[trigger] s[i]) by {
            if i < s.len() - 1 {
                assert(s.drop_last()[i] == s[i]);
            }
        }
    } else {
        assert(s.take(s.len() as int) =~= s);
    }
}

/// The ink of two texts in a row is the ink of both.
pub proof fn lemma_ink_concat(a: Seq<char>, b: Seq<char>)
    ensures
        ink_of(a + b) == ink_of(a) + ink_of(b),
{
    Seq::filter_distributes_over_add(a, b, |c: char| !white_space(c));
}

/// A text of white space has no ink.
pub proof fn lemma_ink_of_blank(s: Seq<char>)
    requires
        forall|i: int| 0 <= i < s.len() ==> white_space(#[trigger] s[i]),
    ensures
        ink_of(s) == Seq::<char>::empty(),
    decreases s.len(),
{
    reveal(Seq::filter);
    if s.len() > 0 {
        assert(white_space(s[s.len() - 1]));
        assert(forall|i: int| 0 <= i < s.len() - 1 ==> s.drop_last()[i] == s[i]);
        lemma_ink_of_blank(s.drop_last());
    }
}

/// Trailing white space holds no ink.
pub proof fn lemma_ink_trim_end(s: Seq<char>)
    ensures
        ink_of(trim_end_of(s)) == ink_of(s),
{
    lemma_trim_end_prefix(s);
    let n = trim_end_of(s).len() as int;
    let tail = s.skip(n);
    assert(s =~= s.take(n) + tail);
    assert(forall|i: int| 0 <= i < tail.len() ==> tail[i] == s[i + n]);
    lemma_ink_of_blank(tail);
    lemma_ink_concat(s.take(n), tail);
    assert(ink_of(s.take(n)) + Seq::<char>::empty() =~= ink_of(s.take(n)));
}

/// Leading white space holds no ink.
pub proof fn lemma_ink_trim_start(s: Seq<char>)
    ensures
        ink_of(trim_start_of(s)) == ink_of(s),
    decreases s.len(),
{
    if s.len() > 0 && white_space(s.first()) {
        lemma_ink_trim_start(s.drop_first());
        let head = seq![s.first()];
        assert(s =~= head + s.drop_first());
        lemma_ink_of_blank(head);
        lemma_ink_concat(head, s.drop_first());
        assert(Seq::<char>::empty() + ink_of(s.drop_first()) =~= ink_of(s.drop_first()));
    }
}

/// Trimming a text takes no ink away.
pub proof fn lemma_ink_trim(s: Seq<char>)
    ensures
        ink_of(trim_of(s)) == ink_of(s),
{
    lemma_ink_trim_start(s);
    lemma_ink_trim_end(trim_start_of(s));
}

/// A line feed and a line add one byte and the bytes of the line.
pub proof fn lemma_byte_len_newline(a: Seq<char>, line: Seq<char>)
    ensures
        byte_len(a.push('\n') + line) == byte_len(a) + 1 + byte_len(line),
{
    let nl = seq!['\n'];
    reveal_with_fuel(encode_utf8, 2);
    assert(nl.drop_first() =~= Seq::<char>::empty());
    assert(encode_utf8(nl).len() == 1);
    assert(a.push('\n') =~= a + nl);
    lemma_encode_concat(a, nl);
    lemma_encode_concat(a.push('\n'), line);
}

/// A trimmed text is empty or has ink.
pub proof fn lemma_trimmed_has_ink(s: Seq<char>)
    ensures
        trim_of(s).len() > 0 ==> ink_of(trim_of(s)).len() > 0,
        trim_of(s).len() == 0 <==> ink_of(s).len() == 0,
{
    let t = trim_of(s);
    lemma_ink_trim(s);
    lemma_trim_ends(s);
    if t.len() > 0 {
        reveal(Seq::filter);
        assert(ink_of(t).last() == t.last());
    } else {
        lemma_ink_of_blank(t);
    }
}

/// A trimmed text has no white space at its ends.
pub proof fn lemma_trim_ends(s: Seq<char>)
    ensures
        trim_of(s).len() > 0 ==> !white_space(trim_of(s).last()) && !white_space(trim_of(s).first()),
{
    lemma_trim_start_inked(s);
    lemma_trim_end_inked(trim_start_of(s));
    lemma_trim_end_prefix(trim_start_of(s));
}

proof fn lemma_trim_start_inked(s: Seq<char>)
    ensures
        trim_start_of(s).len() > 0 ==> !white_space(trim_start_of(s).first()),
    decreases s.len(),
{
    if s.len() > 0 && white_space(s.first()) {
        lemma_trim_start_inked(s.drop_first());
    }
}

proof fn lemma_trim_end_inked(s: Seq<char>)
    ensures
        trim_end_of(s).len() > 0 ==> !white_space(trim_end_of(s).last()),
    decreases s.len(),
{
    if s.len() > 0 && white_space(s.last()) {
        lemma_trim_end_inked(s.drop_last());
    }
}

/// What is kept of one item more.
pub proof fn lemma_filter_step<A>(s: Seq<A>, i: int, keep: spec_fn(A) -> bool)
    requires
        0 <= i < s.len(),
    ensures
        s.take(i + 1).filter(keep) == if keep(s[i]) {
            s.take(i).filter(keep).push(s[i])
        } else {
            s.take(i).filter(keep)
        },
{
    reveal(Seq::filter);
    assert(s.take(i + 1).drop_last() =~= s.take(i));
    assert(s.take(i + 1).last() == s[i]);
}

/// A text between white space is trimmed to itself.
proof fn lemma_trim_between(a: Seq<char>, t: Seq<char>, b: Seq<char>)
    requires
        forall|i: int| 0 <= i < a.len() ==> white_space(#[trigger] a[i]),
        forall|i: int| 0 <= i < b.len() ==> white_space(#[trigger] b[i]),
        t.len() > 0 ==> !white_space(t.first()) && !white_space(t.last()),
    ensures
        trim_of(a + t + b) == t,
{
    let s = a + t + b;
    if t.len() > 0 {
        let k = a.len() as int;
        assert(forall|j: int| 0 <= j < k ==> s[j] == a[j]);
        assert(s[k] == t.first());
        lemma_trim_start_at(s, k);
        let rest = s.skip(k);
        let n = t.len() as int;
        assert(forall|j: int| n <= j < rest.len() ==> rest[j] == b[j - n]);
        assert(rest[n - 1] == t.last());
        lemma_trim_end_at(rest, n);
        assert(rest.take(n) =~= t);
    } else {
        assert forall|j: int| 0 <= j < s.len() implies white_space(#[trigger] s[j]) by {
            if j < a.len() {
                assert(s[j] == a[j]);
            } else {
                assert(s[j] == b[j - a.len()]);
            }
        }
        lemma_trim_start_at(s, s.len() as int);
        assert(s.skip(s.len() as int) =~= Seq::<char>::empty());
        assert(t =~= Seq::<char>::empty());
    }
}

/// Trimming twice is trimming once.
pub proof fn lemma_trim_twice(s: Seq<char>)
    ensures
        trim_of(trim_of(s)) == trim_of(s),
{
    let t = trim_of(s);
    let none = Seq::<char>::empty();
    lemma_trim_ends(s);
    lemma_trim_between(none, t, none);
    assert(none + t + none =~= t);
}

/// A text stands between white space in what it was trimmed from.
proof fn lemma_trim_split(s: Seq<char>) -> (r: (Seq<char>, Seq<char>))
    ensures
        s == r.0 + trim_of(s) + r.1,
        forall|i: int| 0 <= i < r.0.len() ==> white_space(#[trigger] r.0[i]),
        forall|i: int| 0 <= i < r.1.len() ==> white_space(#[trigger] r.1[i]),
{
    lemma_trim_start_suffix(s);
    let rest = trim_start_of(s);
    let k = s.len() - rest.len();
    lemma_trim_end_prefix(rest);
    let n = trim_of(s).len() as int;
    let b = rest.skip(n);
    assert(forall|i: int| 0 <= i < b.len() ==> b[i] == rest[i + n]);
    assert(s =~= s.take(k) + trim_of(s) + b);
    (s.take(k), b)
}

proof fn lemma_trim_start_suffix(s: Seq<char>)
    ensures
        trim_start_of(s).len() <= s.len(),
        trim_start_of(s) == s.skip(s.len() - trim_start_of(s).len()),
        forall|i: int|
            0 <= i < s.len() - trim_start_of(s).len() ==> white_space(#[trigger] s[i]),
    decreases s.len(),
{
    if s.len() > 0 && white_space(s.first()) {
        let tail = s.drop_first();
        lemma_trim_start_suffix(tail);
        let n = trim_start_of(s).len();
        assert(tail.skip(tail.len() - n) =~= s.skip(s.len() - n));
        assert forall|i: int| 0 <= i < s.len() - n implies white_space(#[trigger] s[i]) by {
            if i > 0 {
                assert(tail[i - 1] == s[i]);
            }
        }
    } else {
        assert(s.skip(0) =~= s);
    }
}

/// Line feeds around a text, in place of the white space at its end, do not
/// change what it is trimmed to.
pub proof fn lemma_trim_padded(s: Seq<char>)
    ensures
        trim_of(seq!['\n'] + trim_end_of(s) + seq!['\n']) == trim_of(s),
{
    let (a, b) = lemma_trim_split(s);
    let t = trim_of(s);
    lemma_trim_ends(s);
    let nl = seq!['\n'];
    if t.len() > 0 {
        let m = a.len() + t.len();
        assert(forall|j: int| m <= j < s.len() ==> s[j] == b[j - m]);
        assert(s[m - 1] == t.last());
        lemma_trim_end_at(s, m as int);
        assert(nl + trim_end_of(s) + nl =~= (nl + a) + t + nl);
        assert(forall|i: int| 1 <= i < (nl + a).len() ==> (nl + a)[i] == a[i - 1]);
        lemma_trim_between(nl + a, t, nl);
    } else {
        assert forall|j: int| 0 <= j < s.len() implies white_space(#[trigger] s[j]) by {
            if j < a.len() {
                assert(s[j] == a[j]);
            } else {
                assert(s[j] == b[j - a.len()]);
            }
        }
        lemma_trim_end_at(s, 0);
        assert(nl + trim_end_of(s) + nl =~= nl + Seq::<char>::empty() + nl);
        lemma_trim_between(nl, Seq::<char>::empty(), nl);
        assert(t =~= Seq::<char>::empty());
    }
}

/// All texts of a list in a row.
pub open spec fn concat_of(list: Seq<Seq<char>>) -> Seq<char>
    decreases list.len(),
{
    if list.len() == 0 {
        Seq::empty()
    } else {
        concat_of(list.drop_last()) + list.last()
    }
}

/// The lines of a text hold all of its ink, in order.
pub proof fn lemma_ink_lines(s: Seq<char>)
    ensures
        ink_of(concat_of(lines_of(s))) == ink_of(s),
    decreases s.len(),
{
    let l = lines_of(s);
    if s.len() == 0 {
        assert(concat_of(l) =~= s);
    } else {
        let n = position_of(s, '\n');
        if 0 <= n < s.len() {
            let head = without_cr(s.take(n));
            let rest = s.skip(n + 1);
            lemma_ink_lines(rest);
            lemma_concat_cons(head, lines_of(rest));
            lemma_ink_concat(head, concat_of(lines_of(rest)));
            let gap = s.subrange(head.len() as int, n + 1);
            lemma_position_found(s, '\n');
            assert forall|i: int| 0 <= i < gap.len() implies white_space(#[trigger] gap[i]) by {
                assert(gap[i] == s[head.len() + i]);
                if head.len() + i < n {
                    assert(s.take(n).last() == '\r');
                }
            }
            lemma_ink_of_blank(gap);
            assert(s =~= head + (gap + rest));
            lemma_ink_concat(head, gap + rest);
            lemma_ink_concat(gap, rest);
            assert(Seq::<char>::empty() + ink_of(rest) =~= ink_of(rest));
        } else {
            reveal_with_fuel(concat_of, 2);
            assert(l =~= seq![s]);
            assert(l.drop_last() =~= Seq::<Seq<char>>::empty());
            assert(concat_of(l) =~= s);
        }
    }
}

/// The first `c` of a text that has one stands at its position.
pub proof fn lemma_position_found(s: Seq<char>, c: char)
    ensures
        0 <= position_of(s, c) <= s.len(),
        position_of(s, c) < s.len() ==> s[position_of(s, c)] == c,
        forall|i: int| 0 <= i < position_of(s, c) ==> #[trigger] s[i] != c,
    decreases s.len(),
{
    if s.len() > 0 && s.first() != c {
        lemma_position_found(s.drop_first(), c);
        assert forall|i: int| 0 <= i < position_of(s, c) implies #[trigger] s[i] != c by {
            if i > 0 {
                assert(s.drop_first()[i - 1] == s[i]);
            }
        }
    }
}

/// A list in a row begins with its first text.
pub proof fn lemma_concat_cons(head: Seq<char>, list: Seq<Seq<char>>)
    ensures
        concat_of(seq![head] + list) == head + concat_of(list),
    decreases list.len(),
{
    let all = seq![head] + list;
    if list.len() == 0 {
        reveal_with_fuel(concat_of, 2);
        assert(all.drop_last() =~= Seq::<Seq<char>>::empty());
        assert(concat_of(all) =~= head + concat_of(list));
    } else {
        assert(all.drop_last() =~= seq![head] + list.drop_last());
        lemma_concat_cons(head, list.drop_last());
        assert(concat_of(all) =~= head + concat_of(list));
    }
}

// ---- what holds of the functions ----

/// Whether a text is white space, or empty.
pub open spec fn blank(s: Seq<char>) -> bool {
    forall|i: int| 0 <= i < s.len() ==> white_space(#[trigger] s[i])
}

/// White space is what Unicode calls so: the tab, the line feed, the vertical tab,
/// the form feed, the carriage return and the space; the next line and the no-break
/// space; the Ogham space mark; the spaces of general punctuation, the line and the
/// paragraph separator; and the ideographic space. Nothing else is.
pub proof fn law_white_space(c: char)
    ensures
        white_space(c) <==> {
            ||| c == '\t' || c == '\n' || c == '\u{b}' || c == '\u{c}' || c == '\r' || c == ' '
            ||| c == '\u{85}' || c == '\u{a0}' || c == '\u{1680}'
            ||| '\u{2000}' <= c <= '\u{200a}'
            ||| c == '\u{2028}' || c == '\u{2029}' || c == '\u{202f}' || c == '\u{205f}'
            ||| c == '\u{3000}'
        },
{
}

/// Trimming takes white space off both ends and nothing else: the text is what it is
/// trimmed to, with white space on either side, and what is left neither begins nor
/// ends with any.
pub proof fn law_trim(s: Seq<char>)
    ensures
        exists|a: Seq<char>, b: Seq<char>|
            #![trigger blank(a), blank(b)]
            blank(a) && blank(b) && s == a + trim_of(s) + b,
        trim_of(s).len() > 0 ==> !white_space(trim_of(s)[0]) && !white_space(
            trim_of(s)[trim_of(s).len() - 1],
        ),
{
    let (a, b) = lemma_trim_split(s);
    lemma_trim_ends(s);
    assert(blank(a) && blank(b));
}

/// White space around a text that neither begins nor ends with any is trimmed away,
/// and that is all.
pub proof fn law_trim_gives_back(a: Seq<char>, t: Seq<char>, b: Seq<char>)
    requires
        blank(a),
        blank(b),
        t.len() > 0 ==> !white_space(t[0]) && !white_space(t[t.len() - 1]),
    ensures
        trim_of(a + t + b) == t,
{
    lemma_trim_between(a, t, b);
}

/// Trimming the end takes the white space off that end and nothing else.
pub proof fn law_trim_end(s: Seq<char>)
    ensures
        exists|b: Seq<char>| #[trigger] blank(b) && s == trim_end_of(s) + b,
        trim_end_of(s).len() > 0 ==> !white_space(trim_end_of(s)[trim_end_of(s).len() - 1]),
{
    lemma_trim_end_prefix(s);
    lemma_trim_end_inked(s);
    let n = trim_end_of(s).len() as int;
    let b = s.skip(n);
    assert forall|i: int| 0 <= i < b.len() implies white_space(#[trigger] b[i]) by {
        assert(b[i] == s[i + n]);
    }
    assert(blank(b));
    assert(s =~= trim_end_of(s) + b);
}

/// Lines stand between line feeds. A text without a line feed is one line, or none
/// where it is empty; what stands before the first line feed is the first line, but
/// for one carriage return at its end, and the lines of the rest follow.
pub proof fn law_lines(line: Seq<char>, rest: Seq<char>)
    requires
        !line.contains('\n'),
    ensures
        lines_of(line) == if line.len() > 0 {
            seq![line]
        } else {
            Seq::empty()
        },
        lines_of(line.push('\n') + rest) == seq![
            if line.len() > 0 && line[line.len() - 1] == '\r' {
                line.take(line.len() - 1)
            } else {
                line
            },
        ] + lines_of(rest),
{
    let s = line.push('\n') + rest;
    let n = line.len() as int;
    assert forall|j: int| 0 <= j < n implies #[trigger] line[j] != '\n' by {
        assert(line.contains(line[j]));
    }
    lemma_position_at(line, '\n', n);
    assert forall|j: int| 0 <= j < n implies #[trigger] s[j] != '\n' by {
        assert(s[j] == line[j]);
    }
    assert(s[n] == '\n');
    lemma_position_at(s, '\n', n);
    assert(s.take(n) =~= line);
    assert(s.skip(n + 1) =~= rest);
    if n > 0 && line[n - 1] == '\r' {
        assert(line.drop_last() =~= line.take(n - 1));
    }
}

proof fn lemma_words_gap(s: Seq<char>, gap: Seq<char>)
    requires
        blank(gap),
    ensures
        words_of(s + gap) == words_of(s),
    decreases gap.len(),
{
    if gap.len() == 0 {
        assert(s + gap =~= s);
    } else {
        assert(white_space(gap[gap.len() - 1]));
        assert((s + gap).drop_last() =~= s + gap.drop_last());
        assert forall|i: int| 0 <= i < gap.drop_last().len() implies white_space(
            #[trigger] gap.drop_last()[i],
        ) by {
            assert(gap[i] == gap.drop_last()[i]);
        }
        lemma_words_gap(s, gap.drop_last());
    }
}

proof fn lemma_words_run(s: Seq<char>, word: Seq<char>)
    requires
        s.len() == 0 || white_space(s.last()),
        word.len() > 0,
        forall|i: int| 0 <= i < word.len() ==> !white_space(#[trigger] word[i]),
    ensures
        words_of(s + word) == words_of(s) + 1,
    decreases word.len(),
{
    let all = s + word;
    let n = word.len() as int;
    assert(!white_space(word[n - 1]));
    assert(all.last() == word[n - 1]);
    assert(all.drop_last() =~= s + word.drop_last());
    if n == 1 {
        assert(s + word.drop_last() =~= s);
        if s.len() > 0 {
            assert(all[all.len() - 2] == s.last());
        }
    } else {
        assert(!white_space(word[n - 2]));
        assert(all[all.len() - 2] == word[n - 2]);
        assert(forall|i: int| 0 <= i < n - 1 ==> word.drop_last()[i] == word[i]);
        lemma_words_run(s, word.drop_last());
    }
}

/// Words are counted by the white space between them: white space adds none, and a
/// run of other characters adds one where it stands at the beginning or after white
/// space.
pub proof fn law_words(s: Seq<char>, gap: Seq<char>, word: Seq<char>)
    requires
        blank(gap),
        word.len() > 0,
        forall|i: int| 0 <= i < word.len() ==> !white_space(#[trigger] word[i]),
    ensures
        words_of(gap) == 0,
        words_of(s + gap) == words_of(s),
        words_of(gap + word) == 1,
        gap.len() > 0 ==> words_of(s + gap + word) == words_of(s) + 1,
{
    let none = Seq::<char>::empty();
    lemma_words_gap(none, gap);
    assert(none + gap =~= gap);
    lemma_words_gap(s, gap);
    if gap.len() > 0 {
        assert(white_space(gap[gap.len() - 1]));
        assert((s + gap).last() == gap[gap.len() - 1]);
        lemma_words_run(s + gap, word);
    }
    lemma_words_run(gap, word);
}

/// The beginning of a text is a part of it from its first character on, of `n`
/// characters or all.
pub proof fn law_beginning(s: Seq<char>, n: int)
    requires
        n >= 0,
    ensures
        beginning(s, n).len() == if s.len() < n {
            s.len() as int
        } else {
            n
        },
        forall|i: int| 0 <= i < beginning(s, n).len() ==> #[trigger] beginning(s, n)[i] == s[i],
{
}

/// A text stands in another exactly where that is it with something before and
/// something after.
pub proof fn law_occurs(needle: Seq<char>, s: Seq<char>)
    ensures
        occurs(needle, s) <==> exists|a: Seq<char>, b: Seq<char>| s == #[trigger] (a + needle + b),
{
    if occurs(needle, s) {
        let i = choose|i: int| occurs_at(needle, s, i);
        let a = s.take(i);
        let b = s.skip(i + needle.len());
        assert(s =~= a + needle + b);
    }
    if exists|a: Seq<char>, b: Seq<char>| s == #[trigger] (a + needle + b) {
        let (a, b) = choose|a: Seq<char>, b: Seq<char>| s == #[trigger] (a + needle + b);
        assert(s.subrange(a.len() as int, (a.len() + needle.len()) as int) =~= needle);
        assert(occurs_at(needle, s, a.len() as int));
    }
}

/// The bytes of a text are those of its characters: one for a character of ASCII, and
/// two, three or four for others.
pub proof fn law_byte_len(a: Seq<char>, b: Seq<char>, c: char)
    ensures
        byte_len(a + b) == byte_len(a) + byte_len(b),
        byte_len(seq![c]) == if (c as u32) < 0x80 {
            1nat
        } else if (c as u32) < 0x800 {
            2nat
        } else if (c as u32) < 0x1_0000 {
            3nat
        } else {
            4nat
        },
{
    lemma_encode_concat(a, b);
    reveal_with_fuel(encode_utf8, 2);
    char_is_scalar(c);
    assert(seq![c].drop_first() =~= Seq::<char>::empty());
}

/// A text that neither begins nor ends with white space has a first and a last line
/// that are not empty.
pub proof fn lemma_outer_lines(s: Seq<char>)
    requires
        s.len() > 0,
        !white_space(s.last()),
    ensures
        lines_of(s).len() > 0,
        lines_of(s).last().len() > 0,
        !white_space(s.first()) ==> lines_of(s)[0].len() > 0,
    decreases s.len(),
{
    let n = position_of(s, '\n');
    lemma_position_found(s, '\n');
    if n < s.len() {
        let rest = s.skip(n + 1);
        assert(rest.len() > 0);
        assert(rest.last() == s.last());
        lemma_outer_lines(rest);
        assert(lines_of(s).last() == lines_of(rest).last());
        if !white_space(s.first()) {
            assert(s.take(n)[0] == s.first());
        }
    }
}

} // verus!
