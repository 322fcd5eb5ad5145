//! Text as sequences of characters: comparison, whitespace, letter case, search
//! and replacement.
use vstd::prelude::*;
use vstd::string::StringExecFns;

verus! {

/// `String::push` appends the given character to the end of the string.
pub assume_specification[ String::push ](s: &mut String, c: char)
    ensures
        final(s)@ == old(s)@.push(c),
;

/// The characters of an optional string.
pub open spec fn opt_view(s: Option<String>) -> Option<Seq<char>> {
    match s {
        Some(t) => Some(t@),
        None => None,
    }
}

/// The characters of an optional string slice.
pub open spec fn str_view(s: Option<&str>) -> Option<Seq<char>> {
    match s {
        Some(t) => Some(t@),
        None => None,
    }
}

/// The characters of each of the strings.
pub open spec fn views(strings: Seq<String>) -> Seq<Seq<char>> {
    strings.map_values(|s: String| s@)
}

/// The characters of `s`, in order.
pub fn chars_of(s: &str) -> (r: Vec<char>)
    ensures
        r@ == s@,
{
    let mut v: Vec<char> = Vec::new();
    for c in it: s.chars()
        invariant
            v@ == s@.take(it.index()),
            it.seq() == s@,
    {
        v.push(c);
    }
    v
}

/// The string made of the characters `from..to` of `cs`.
pub fn string_of(cs: &Vec<char>, from: usize, to: usize) -> (r: String)
    requires
        from <= to <= cs@.len(),
    ensures
        r@ == cs@.subrange(from as int, to as int),
{
    let mut s = String::new();
    let mut i: usize = from;
    while i < to
        invariant
            from <= i <= to <= cs@.len(),
            s@ == cs@.subrange(from as int, i as int),
        decreases to - i,
    {
        s.push(cs[i]);
        i = i + 1;
        assert(cs@.subrange(from as int, i as int) =~= cs@.subrange(from as int, i - 1).push(
            cs@[i - 1],
        ));
    }
    s
}

/// Whether two strings hold the same characters.
pub fn same_text(a: &str, b: &str) -> (r: bool)
    ensures
        r == (a@ == b@),
{
    a.to_owned() == b.to_owned()
}

/// Two strings, one after the other.
pub fn concat(a: &str, b: &str) -> (r: String)
    ensures
        r@ == a@ + b@,
{
    let mut s = a.to_owned();
    s.append(b);
    s
}

// ── Whitespace ───────────────────────────────────────────────────────────────

/// The characters with Unicode's `White_Space` property.
pub open spec fn is_white(c: char) -> bool {
    ||| '\u{9}' <= c <= '\u{d}'
    ||| c == '\u{20}'
    ||| c == '\u{85}'
    ||| c == '\u{a0}'
    ||| c == '\u{1680}'
    ||| '\u{2000}' <= c <= '\u{200a}'
    ||| c == '\u{2028}'
    ||| c == '\u{2029}'
    ||| c == '\u{202f}'
    ||| c == '\u{205f}'
    ||| c == '\u{3000}'
}

/// Whether `c` is whitespace.
pub fn is_whitespace(c: char) -> (r: bool)
    ensures
        r == is_white(c),
{
    ('\u{9}' <= c && c <= '\u{d}') || c == '\u{20}' || c == '\u{85}' || c == '\u{a0}' || c
        == '\u{1680}' || ('\u{2000}' <= c && c <= '\u{200a}') || c == '\u{2028}' || c == '\u{2029}'
        || c == '\u{202f}' || c == '\u{205f}' || c == '\u{3000}'
}

/// `s` without its leading whitespace.
pub open spec fn trim_start(s: Seq<char>) -> Seq<char>
    decreases s.len(),
{
    if s.len() > 0 && is_white(s[0]) {
        trim_start(s.skip(1))
    } else {
        s
    }
}

/// `s` without its trailing whitespace.
pub open spec fn trim_end(s: Seq<char>) -> Seq<char>
    decreases s.len(),
{
    if s.len() > 0 && is_white(s.last()) {
        trim_end(s.drop_last())
    } else {
        s
    }
}

/// `s` without the whitespace at either end.
pub open spec fn trimmed(s: Seq<char>) -> Seq<char> {
    trim_end(trim_start(s))
}

/// `s` without the whitespace at either end.
pub fn trim(s: &str) -> (r: String)
    ensures
        r@ == trimmed(s@),
{
    let cs = chars_of(s);
    let mut from: usize = 0;
    assert(cs@.skip(0) =~= cs@);
    while from < cs.len() && is_whitespace(cs[from])
        invariant
            from <= cs@.len(),
            cs@ == s@,
            trim_start(s@) == trim_start(cs@.skip(from as int)),
        decreases cs@.len() - from,
    {
        assert(cs@.skip(from as int).skip(1) =~= cs@.skip(from + 1));
        from = from + 1;
    }
    let mut to: usize = cs.len();
    let ghost rest = cs@.skip(from as int);
    assert(trim_start(s@) == rest);
    assert(cs@.subrange(from as int, to as int) =~= rest);
    while from < to && is_whitespace(cs[to - 1])
        invariant
            from <= to <= cs@.len(),
            trim_end(rest) == trim_end(cs@.subrange(from as int, to as int)),
        decreases to,
    {
        assert(cs@.subrange(from as int, to as int).drop_last() =~= cs@.subrange(
            from as int,
            to - 1,
        ));
        to = to - 1;
    }
    string_of(&cs, from, to)
}

/// The length of the run of non-whitespace characters that `s` starts with.
pub open spec fn word_len(s: Seq<char>) -> nat
    decreases s.len(),
{
    if s.len() > 0 && !is_white(s[0]) {
        1 + word_len(s.skip(1))
    } else {
        0
    }
}

/// A word is no longer than the text it starts.
pub proof fn lemma_word_len(s: Seq<char>)
    ensures
        word_len(s) <= s.len(),
        forall|i: int| 0 <= i < word_len(s) ==> !is_white(#[trigger] s[i]),
        word_len(s) < s.len() ==> is_white(s[word_len(s) as int]),
    decreases s.len(),
{
    if s.len() > 0 && !is_white(s[0]) {
        lemma_word_len(s.skip(1));
        assert forall|i: int| 0 <= i < word_len(s) implies !is_white(#[trigger] s[i]) by {
            if i > 0 {
                assert(s[i] == s.skip(1)[i - 1]);
            }
        }
    }
}

/// The maximal runs of non-whitespace characters of `s`, in order.
pub open spec fn words(s: Seq<char>) -> Seq<Seq<char>>
    decreases s.len(),
{
    if s.len() == 0 {
        seq![]
    } else if is_white(s[0]) {
        words(s.skip(1))
    } else {
        let n = word_len(s);
        if n <= s.len() {
            seq![s.take(n as int)] + words(s.skip(n as int))
        } else {
            seq![]
        }
    }
}

/// The pieces in order, with `sep` between neighbours.
pub open spec fn joined(pieces: Seq<Seq<char>>, sep: Seq<char>) -> Seq<char>
    decreases pieces.len(),
{
    if pieces.len() == 0 {
        seq![]
    } else if pieces.len() == 1 {
        pieces[0]
    } else {
        joined(pieces.drop_last(), sep) + sep + pieces.last()
    }
}

/// The words of `s` with one space between neighbours, and none at the ends.
pub open spec fn single_spaced(s: Seq<char>) -> Seq<char> {
    joined(words(s), seq![' '])
}

/// The words of `cs` with one space between neighbours.
pub fn collapse_whitespace(cs: &Vec<char>) -> (r: String)
    ensures
        r@ == single_spaced(cs@),
{
    let ghost all = words(cs@);
    let ghost mut done: Seq<Seq<char>> = seq![];
    let mut out = String::new();
    let mut i: usize = 0;
    let mut first: bool = true;
    assert(cs@.skip(0) =~= cs@);
    assert(done + words(cs@.skip(0)) =~= all);
    while i < cs.len()
        invariant
            i <= cs@.len(),
            done + words(cs@.skip(i as int)) == all,
            out@ == joined(done, seq![' ']),
            first == (done.len() == 0),
        decreases cs@.len() - i,
    {
        let ghost rest = cs@.skip(i as int);
        if is_whitespace(cs[i]) {
            assert(rest.skip(1) =~= cs@.skip(i + 1));
            i = i + 1;
        } else {
            let start: usize = i;
            assert(rest.skip(0) =~= rest);
            while i < cs.len() && !is_whitespace(cs[i])
                invariant
                    start <= i <= cs@.len(),
                    rest == cs@.skip(start as int),
                    word_len(rest) == (i - start) + word_len(cs@.skip(i as int)),
                decreases cs@.len() - i,
            {
                assert(cs@.skip(i as int).skip(1) =~= cs@.skip(i + 1));
                i = i + 1;
            }
            let word = string_of(cs, start, i);
            proof {
                lemma_word_len(rest);
                assert(word_len(cs@.skip(i as int)) == 0);
                assert(rest.take(i - start) =~= word@);
                assert(rest.skip(i - start) =~= cs@.skip(i as int));
                assert(words(rest) =~= seq![word@] + words(cs@.skip(i as int)));
                let next = done.push(word@);
                assert(next + words(cs@.skip(i as int)) =~= done + words(rest));
                assert(next.drop_last() =~= done);
                done = next;
            }
            if first {
                first = false;
            } else {
                out.push(' ');
            }
            out.append(word.as_str());
            assert(out@ =~= joined(done, seq![' ']));
        }
    }
    assert(words(cs@.skip(i as int)) =~= seq![]);
    assert(done =~= all);
    out
}

// ── Letter case ──────────────────────────────────────────────────────────────

/// What `str::to_lowercase` returns for text that is not all ASCII.
pub uninterp spec fn unicode_lowercase(s: Seq<char>) -> Seq<char>;

/// `c` with the ASCII letters `A` to `Z` mapped to `a` to `z`.
pub open spec fn ascii_lower(c: char) -> char {
    if 'A' <= c <= 'Z' {
        (c as u8 + 32) as char
    } else {
        c
    }
}

/// `s` in lower case.
pub open spec fn lowercase(s: Seq<char>) -> Seq<char> {
    if vstd::utf8::is_ascii_chars(s) {
        s.map_values(|c: char| ascii_lower(c))
    } else {
        unicode_lowercase(s)
    }
}

/// Calls `str::to_lowercase`: its result is determined by the characters of
/// `s`, and on ASCII text it maps `A` to `Z` to `a` to `z` and keeps the rest.
#[verifier::external_body]
pub(crate) fn to_lowercase(s: &str) -> (r: String)
    ensures
        r@ == (if vstd::utf8::is_ascii_chars(s@) {
            s@.map_values(|c: char| ascii_lower(c))
        } else {
            unicode_lowercase(s@)
        }),
{
    s.to_lowercase()
}

// ── Search and replacement ───────────────────────────────────────────────────

/// Whether `needle` stands in `hay` at position `i`.
pub open spec fn occurs_at(hay: Seq<char>, needle: Seq<char>, i: int) -> bool {
    &&& 0 <= i <= hay.len() - needle.len()
    &&& hay.subrange(i, i + needle.len()) == needle
}

/// Whether `needle` stands somewhere in `hay`.
pub open spec fn has_text(hay: Seq<char>, needle: Seq<char>) -> bool {
    exists|i: int| occurs_at(hay, needle, i)
}

/// Whether `s` starts with `prefix`.
pub open spec fn has_prefix(s: Seq<char>, prefix: Seq<char>) -> bool {
    s.len() >= prefix.len() && s.take(prefix.len() as int) == prefix
}

/// Whether `s` ends with `suffix`.
pub open spec fn has_suffix(s: Seq<char>, suffix: Seq<char>) -> bool {
    s.len() >= suffix.len() && s.skip(s.len() - suffix.len()) == suffix
}

/// Whether `needle` stands in `hay` at position `at`.
pub fn matches_at(hay: &Vec<char>, needle: &Vec<char>, at: usize) -> (r: bool)
    requires
        at <= hay@.len(),
    ensures
        r == occurs_at(hay@, needle@, at as int),
{
    if needle.len() > hay.len() - at {
        return false;
    }
    let mut k: usize = 0;
    while k < needle.len()
        invariant
            k <= needle@.len(),
            at + needle@.len() <= hay@.len() <= usize::MAX,
            forall|j: int| 0 <= j < k ==> hay@[at + j] == needle@[j],
        decreases needle@.len() - k,
    {
        if hay[at + k] != needle[k] {
            assert(hay@.subrange(at as int, at + needle@.len())[k as int] != needle@[k as int]);
            return false;
        }
        k = k + 1;
    }
    assert(hay@.subrange(at as int, at + needle@.len()) =~= needle@);
    true
}

/// Whether `needle` stands somewhere in `hay`.
pub fn contains(hay: &str, needle: &str) -> (r: bool)
    ensures
        r == has_text(hay@, needle@),
{
    let h = chars_of(hay);
    let n = chars_of(needle);
    let mut i: usize = 0;
    loop
        invariant
            h@ == hay@,
            n@ == needle@,
            i <= h@.len(),
            forall|j: int| 0 <= j < i ==> !occurs_at(hay@, needle@, j),
        decreases h@.len() - i,
    {
        if matches_at(&h, &n, i) {
            assert(occurs_at(hay@, needle@, i as int));
            return true;
        }
        if i == h.len() {
            return false;
        }
        i = i + 1;
    }
}

/// Whether `s` starts with `prefix`.
pub fn starts_with(s: &str, prefix: &str) -> (r: bool)
    ensures
        r == has_prefix(s@, prefix@),
{
    let cs = chars_of(s);
    let ps = chars_of(prefix);
    if cs.len() < ps.len() {
        return false;
    }
    assert(s@.subrange(0, ps@.len() as int) =~= s@.take(ps@.len() as int));
    matches_at(&cs, &ps, 0)
}

/// Whether `s` ends with `suffix`.
pub fn ends_with(s: &str, suffix: &str) -> (r: bool)
    ensures
        r == has_suffix(s@, suffix@),
{
    let cs = chars_of(s);
    let xs = chars_of(suffix);
    if cs.len() < xs.len() {
        return false;
    }
    assert(s@.subrange(s@.len() - xs@.len(), s@.len() as int) =~= s@.skip(s@.len() - xs@.len()));
    matches_at(&cs, &xs, cs.len() - xs.len())
}

/// `s` with every `from` replaced by `to`.
pub open spec fn with_char_replaced(s: Seq<char>, from: char, to: char) -> Seq<char> {
    s.map_values(
        |c: char|
            if c == from {
                to
            } else {
                c
            },
    )
}

/// `s` with every `from` replaced by `to`.
pub fn replace_char(s: &Vec<char>, from: char, to: char) -> (r: Vec<char>)
    ensures
        r@ == with_char_replaced(s@, from, to),
{
    let mut out: Vec<char> = Vec::new();
    let mut i: usize = 0;
    while i < s.len()
        invariant
            i <= s@.len(),
            out@ == with_char_replaced(s@, from, to).take(i as int),
        decreases s@.len() - i,
    {
        let c = s[i];
        if c == from {
            out.push(to);
        } else {
            out.push(c);
        }
        i = i + 1;
        assert(with_char_replaced(s@, from, to).take(i as int) =~= with_char_replaced(
            s@,
            from,
            to,
        ).take(i - 1).push(with_char_replaced(s@, from, to)[i - 1]));
    }
    assert(with_char_replaced(s@, from, to).take(i as int) =~= with_char_replaced(s@, from, to));
    out
}

/// `s` with every occurrence of `pat` replaced by `with`, found from the left
/// and without overlap.
pub open spec fn with_text_replaced(s: Seq<char>, pat: Seq<char>, with: Seq<char>) -> Seq<char>
    decreases s.len(),
{
    if pat.len() == 0 || s.len() < pat.len() {
        s
    } else if s.take(pat.len() as int) == pat {
        with + with_text_replaced(s.skip(pat.len() as int), pat, with)
    } else {
        seq![s[0]] + with_text_replaced(s.skip(1), pat, with)
    }
}

/// `s` with every occurrence of `pat` replaced by the character `with`, found
/// from the left and without overlap.
pub fn replace_text(s: &Vec<char>, pat: &Vec<char>, with: char) -> (r: Vec<char>)
    requires
        pat@.len() > 0,
    ensures
        r@ == with_text_replaced(s@, pat@, seq![with]),
{
    let mut out: Vec<char> = Vec::new();
    let mut i: usize = 0;
    let ghost whole = with_text_replaced(s@, pat@, seq![with]);
    assert(s@.skip(0) =~= s@);
    assert(out@ + whole =~= whole);
    while i < s.len()
        invariant
            i <= s@.len(),
            pat@.len() > 0,
            whole == out@ + with_text_replaced(s@.skip(i as int), pat@, seq![with]),
        decreases s@.len() - i,
    {
        let ghost rest = s@.skip(i as int);
        let ghost before = out@;
        if matches_at(s, pat, i) {
            assert(s@.subrange(i as int, i + pat@.len()) =~= rest.take(pat@.len() as int));
            assert(rest.skip(pat@.len() as int) =~= s@.skip(i + pat@.len()));
            out.push(with);
            i = i + pat.len();
            assert(out@ + with_text_replaced(s@.skip(i as int), pat@, seq![with]) =~= before
                + with_text_replaced(rest, pat@, seq![with]));
        } else {
            assert(rest.len() >= pat@.len() ==> s@.subrange(i as int, i + pat@.len())
                =~= rest.take(pat@.len() as int));
            assert(rest.skip(1) =~= s@.skip(i + 1));
            assert(rest =~= seq![rest[0]] + s@.skip(i + 1));
            out.push(s[i]);
            i = i + 1;
            assert(out@ + with_text_replaced(s@.skip(i as int), pat@, seq![with]) =~= before
                + with_text_replaced(rest, pat@, seq![with]));
        }
    }
    assert(out@ + with_text_replaced(s@.skip(i as int), pat@, seq![with]) =~= out@);
    out
}

// ── Laws ─────────────────────────────────────────────────────────────────────

/// Whether every whitespace character of `s` is a space between two characters
/// that are not whitespace.
pub open spec fn is_single_spaced(s: Seq<char>) -> bool {
    forall|i: int|
        0 <= i < s.len() && is_white(#[trigger] s[i]) ==> {
            &&& s[i] == ' '
            &&& 0 < i < s.len() - 1
            &&& !is_white(s[i - 1])
            &&& !is_white(s[i + 1])
        }
}

/// Whether `w` is a word: not empty, and without whitespace.
pub open spec fn is_word(w: Seq<char>) -> bool {
    w.len() > 0 && forall|i: int| 0 <= i < w.len() ==> !is_white(#[trigger] w[i])
}

/// The words of a text are words.
proof fn lemma_words_are_words(s: Seq<char>)
    ensures
        forall|k: int| 0 <= k < words(s).len() ==> is_word(#[trigger] words(s)[k]),
    decreases s.len(),
{
    if s.len() == 0 {
    } else if is_white(s[0]) {
        lemma_words_are_words(s.skip(1));
        assert(words(s) == words(s.skip(1)));
    } else {
        let n = word_len(s);
        lemma_word_len(s);
        lemma_words_are_words(s.skip(n as int));
        assert forall|k: int| 0 <= k < words(s).len() implies is_word(
            #[trigger] words(s)[k],
        ) by {
            if k == 0 {
                assert(words(s)[0] == s.take(n as int));
                assert forall|i: int| 0 <= i < n implies !is_white(
                    #[trigger] s.take(n as int)[i],
                ) by {
                    assert(s.take(n as int)[i] == s[i]);
                }
            } else {
                assert(words(s)[k] == words(s.skip(n as int))[k - 1]);
            }
        }
    }
}

/// Words with spaces between them are single-spaced.
proof fn lemma_joined_words(ws: Seq<Seq<char>>)
    requires
        forall|k: int| 0 <= k < ws.len() ==> is_word(#[trigger] ws[k]),
    ensures
        is_single_spaced(joined(ws, seq![' '])),
        ws.len() > 0 ==> joined(ws, seq![' ']).len() > 0,
    decreases ws.len(),
{
    if ws.len() == 1 {
        assert(is_word(ws[0]));
    } else if ws.len() > 1 {
        let init = ws.drop_last();
        assert forall|k: int| 0 <= k < init.len() implies is_word(#[trigger] init[k]) by {
            assert(init[k] == ws[k]);
        }
        lemma_joined_words(init);
        let left = joined(init, seq![' ']);
        let right = ws.last();
        assert(is_word(ws[ws.len() - 1]));
        let all = joined(ws, seq![' ']);
        assert(all =~= left + seq![' '] + right);
        assert forall|i: int| 0 <= i < all.len() && is_white(#[trigger] all[i]) implies {
            &&& all[i] == ' '
            &&& 0 < i < all.len() - 1
            &&& !is_white(all[i - 1])
            &&& !is_white(all[i + 1])
        } by {
            if i < left.len() {
                assert(all[i] == left[i]);
                assert(all[i - 1] == left[i - 1]);
                assert(all[i + 1] == left[i + 1]);
            } else if i == left.len() {
                if is_white(left[left.len() - 1]) {
                    assert(false);
                }
                assert(all[i - 1] == left[left.len() - 1]);
                assert(all[i + 1] == right[0]);
            } else {
                assert(all[i] == right[i - left.len() - 1]);
            }
        }
    }
}

/// Collapsed text is single-spaced, and trimming it changes nothing.
pub proof fn law_collapsed_text_is_single_spaced(s: Seq<char>)
    ensures
        is_single_spaced(single_spaced(s)),
        trimmed(single_spaced(s)) == single_spaced(s),
{
    lemma_words_are_words(s);
    lemma_joined_words(words(s));
}

/// The words of a text hold no other characters than the text.
proof fn lemma_words_chars(s: Seq<char>, p: spec_fn(char) -> bool)
    requires
        s.all(p),
    ensures
        forall|k: int| 0 <= k < words(s).len() ==> (#[trigger] words(s)[k]).all(p),
    decreases s.len(),
{
    if s.len() == 0 {
    } else if is_white(s[0]) {
        assert(s.skip(1).all(p)) by {
            assert forall|i: int| 0 <= i < s.skip(1).len() implies p(
                #[trigger] s.skip(1)[i],
            ) by {
                assert(p(s[i + 1]));
            }
        }
        lemma_words_chars(s.skip(1), p);
        assert(words(s) == words(s.skip(1)));
    } else {
        let n = word_len(s) as int;
        lemma_word_len(s);
        assert(s.skip(n).all(p)) by {
            assert forall|i: int| 0 <= i < s.skip(n).len() implies p(#[trigger] s.skip(n)[i]) by {
                assert(p(s[i + n]));
            }
        }
        assert(s.take(n).all(p)) by {
            assert forall|i: int| 0 <= i < n implies p(#[trigger] s.take(n)[i]) by {
                assert(p(s[i]));
            }
        }
        lemma_words_chars(s.skip(n), p);
        assert forall|k: int| 0 <= k < words(s).len() implies (#[trigger] words(s)[k]).all(p) by {
            if k > 0 {
                assert(words(s)[k] == words(s.skip(n))[k - 1]);
            }
        }
    }
}

/// Joined pieces hold no other characters than the pieces and the separator.
proof fn lemma_joined_chars(ws: Seq<Seq<char>>, sep: Seq<char>, p: spec_fn(char) -> bool)
    requires
        sep.all(p),
        forall|k: int| 0 <= k < ws.len() ==> (#[trigger] ws[k]).all(p),
    ensures
        joined(ws, sep).all(p),
    decreases ws.len(),
{
    if ws.len() > 1 {
        let init = ws.drop_last();
        assert forall|k: int| 0 <= k < init.len() implies (#[trigger] init[k]).all(p) by {
            assert(init[k] == ws[k]);
        }
        lemma_joined_chars(init, sep, p);
        assert(ws[ws.len() - 1].all(p));
        let left = joined(init, sep);
        let all = joined(ws, sep);
        assert(all =~= left + sep + ws.last());
        assert forall|i: int| 0 <= i < all.len() implies p(#[trigger] all[i]) by {
            if i < left.len() {
                assert(p(left[i]));
            } else if i < left.len() + sep.len() {
                assert(p(sep[i - left.len()]));
            } else {
                assert(p(ws.last()[i - left.len() - sep.len()]));
            }
        }
    } else if ws.len() == 1 {
        assert(ws[0].all(p));
    }
}

/// Collapsing whitespace brings in no character but the space.
pub proof fn lemma_single_spaced_chars(s: Seq<char>, p: spec_fn(char) -> bool)
    requires
        s.all(p),
        p(' '),
    ensures
        single_spaced(s).all(p),
{
    lemma_words_chars(s, p);
    assert(seq![' '].all(p));
    lemma_joined_chars(words(s), seq![' '], p);
}

/// Replacing text brings in no characters but those of the replacement.
pub proof fn lemma_replaced_chars(
    s: Seq<char>,
    pat: Seq<char>,
    with: Seq<char>,
    p: spec_fn(char) -> bool,
)
    requires
        s.all(p),
        with.all(p),
    ensures
        with_text_replaced(s, pat, with).all(p),
    decreases s.len(),
{
    if pat.len() == 0 || s.len() < pat.len() {
    } else {
        let n = if s.take(pat.len() as int) == pat {
            pat.len() as int
        } else {
            1
        };
        let head = if s.take(pat.len() as int) == pat {
            with
        } else {
            seq![s[0]]
        };
        let rest = s.skip(n);
        assert forall|i: int| 0 <= i < rest.len() implies p(#[trigger] rest[i]) by {
            assert(p(s[i + n]));
        }
        lemma_replaced_chars(rest, pat, with, p);
        let tail = with_text_replaced(rest, pat, with);
        let all = with_text_replaced(s, pat, with);
        assert(p(s[0]));
        assert(all =~= head + tail);
        assert forall|i: int| 0 <= i < all.len() implies p(#[trigger] all[i]) by {
            if i < head.len() {
                assert(p(head[i]));
            } else {
                assert(p(tail[i - head.len()]));
            }
        }
    }
}

/// What stands in a part of a text stands in the text.
proof fn lemma_part_has_text(s: Seq<char>, needle: Seq<char>, from: int, to: int)
    requires
        0 <= from <= to <= s.len(),
        has_text(s.subrange(from, to), needle),
    ensures
        has_text(s, needle),
{
    let part = s.subrange(from, to);
    let i = choose|i: int| occurs_at(part, needle, i);
    assert(s.subrange(from + i, from + i + needle.len()) =~= part.subrange(i, i + needle.len()));
    assert(occurs_at(s, needle, from + i));
}

/// What a text with replacements starts with, if that is free of the
/// replacement, the text started with before.
proof fn lemma_replaced_prefix(s: Seq<char>, pat: Seq<char>, with: char, prefix: Seq<char>)
    requires
        !prefix.contains(with),
        has_prefix(with_text_replaced(s, pat, seq![with]), prefix),
    ensures
        has_prefix(s, prefix),
    decreases s.len(),
{
    let all = with_text_replaced(s, pat, seq![with]);
    if prefix.len() == 0 {
        assert(s.take(0) =~= prefix);
    } else if pat.len() > 0 && s.len() >= pat.len() {
        assert(all.take(prefix.len() as int)[0] == prefix[0]);
        if s.take(pat.len() as int) == pat {
            assert(all[0] == with);
        } else {
            let rest = s.skip(1);
            let tail = with_text_replaced(rest, pat, seq![with]);
            let wanted = prefix.skip(1);
            assert forall|i: int| 0 <= i < wanted.len() implies wanted[i] != with by {
                assert(prefix.contains(prefix[i + 1]));
            }
            assert(tail.take(wanted.len() as int) =~= all.take(prefix.len() as int).skip(1));
            lemma_replaced_prefix(rest, pat, with, wanted);
            assert(s.take(prefix.len() as int) =~= seq![s[0]] + rest.take(wanted.len() as int));
            assert(prefix =~= seq![prefix[0]] + wanted);
        }
    }
}

/// Replaced text is gone, where the replacement has no part in it.
pub proof fn law_replaced_text_is_gone(s: Seq<char>, pat: Seq<char>, with: char)
    requires
        pat.len() > 0,
        !pat.contains(with),
    ensures
        !has_text(with_text_replaced(s, pat, seq![with]), pat),
    decreases s.len(),
{
    let all = with_text_replaced(s, pat, seq![with]);
    let m = pat.len() as int;
    if s.len() >= m {
        let found = s.take(m) == pat;
        let rest = if found {
            s.skip(m)
        } else {
            s.skip(1)
        };
        let tail = with_text_replaced(rest, pat, seq![with]);
        law_replaced_text_is_gone(rest, pat, with);
        assert forall|i: int| !occurs_at(all, pat, i) by {
            if occurs_at(all, pat, i) {
                if i > 0 {
                    assert(tail.subrange(i - 1, i - 1 + m) =~= all.subrange(i, i + m));
                    assert(occurs_at(tail, pat, i - 1));
                } else if found {
                    assert(all.subrange(0, m)[0] == with);
                    assert(pat.contains(pat[0]));
                } else {
                    let wanted = pat.skip(1);
                    assert forall|k: int| 0 <= k < wanted.len() implies wanted[k] != with by {
                        assert(pat.contains(pat[k + 1]));
                    }
                    assert(tail.take(m - 1) =~= all.subrange(0, m).skip(1));
                    lemma_replaced_prefix(rest, pat, with, wanted);
                    assert(all.subrange(0, m)[0] == s[0]);
                    assert(s.take(m) =~= seq![s[0]] + rest.take(m - 1));
                    assert(pat =~= seq![pat[0]] + wanted);
                }
            }
        }
    }
}

/// Replacing text that is not there changes nothing.
pub proof fn lemma_nothing_to_replace(s: Seq<char>, pat: Seq<char>, with: Seq<char>)
    requires
        !has_text(s, pat),
    ensures
        with_text_replaced(s, pat, with) == s,
    decreases s.len(),
{
    if pat.len() > 0 && s.len() >= pat.len() {
        assert(!occurs_at(s, pat, 0));
        assert(s.subrange(0, pat.len() as int) =~= s.take(pat.len() as int));
        let rest = s.skip(1);
        assert(rest =~= s.subrange(1, s.len() as int));
        if has_text(rest, pat) {
            lemma_part_has_text(s, pat, 1, s.len() as int);
        }
        lemma_nothing_to_replace(rest, pat, with);
        assert(seq![s[0]] + rest =~= s);
    }
}

/// What stands in no part of a text stands in none of its words.
proof fn lemma_words_have_no_text(s: Seq<char>, needle: Seq<char>)
    requires
        !has_text(s, needle),
    ensures
        forall|k: int| 0 <= k < words(s).len() ==> !has_text(#[trigger] words(s)[k], needle),
    decreases s.len(),
{
    if s.len() > 0 {
        let n = if is_white(s[0]) {
            1
        } else {
            word_len(s) as int
        };
        lemma_word_len(s);
        let rest = s.skip(n);
        assert(rest =~= s.subrange(n, s.len() as int));
        if has_text(rest, needle) {
            lemma_part_has_text(s, needle, n, s.len() as int);
        }
        lemma_words_have_no_text(rest, needle);
        assert forall|k: int| 0 <= k < words(s).len() implies !has_text(
            #[trigger] words(s)[k],
            needle,
        ) by {
            if is_white(s[0]) {
                assert(words(s)[k] == words(rest)[k]);
            } else if k > 0 {
                assert(words(s)[k] == words(rest)[k - 1]);
            } else {
                assert(words(s)[0] =~= s.subrange(0, n));
                if has_text(words(s)[0], needle) {
                    lemma_part_has_text(s, needle, 0, n);
                }
            }
        }
    }
}

/// A word that stands in none of the pieces does not stand in the pieces with
/// spaces between them.
proof fn lemma_joined_has_no_word(pieces: Seq<Seq<char>>, needle: Seq<char>)
    requires
        is_word(needle),
        forall|k: int| 0 <= k < pieces.len() ==> !has_text(#[trigger] pieces[k], needle),
    ensures
        !has_text(joined(pieces, seq![' ']), needle),
    decreases pieces.len(),
{
    if pieces.len() == 1 {
        assert(!has_text(pieces[0], needle));
    } else if pieces.len() > 1 {
        let init = pieces.drop_last();
        assert forall|k: int| 0 <= k < init.len() implies !has_text(
            #[trigger] init[k],
            needle,
        ) by {
            assert(init[k] == pieces[k]);
        }
        lemma_joined_has_no_word(init, needle);
        let left = joined(init, seq![' ']);
        let right = pieces[pieces.len() - 1];
        let all = joined(pieces, seq![' ']);
        assert(all =~= left + seq![' '] + right);
        let m = needle.len() as int;
        assert forall|i: int| !occurs_at(all, needle, i) by {
            if occurs_at(all, needle, i) {
                let gap = left.len() as int;
                if i + m <= gap {
                    assert(left.subrange(i, i + m) =~= all.subrange(i, i + m));
                    assert(occurs_at(left, needle, i));
                } else if i > gap {
                    let j = i - gap - 1;
                    assert(right.subrange(j, j + m) =~= all.subrange(i, i + m));
                    assert(occurs_at(right, needle, j));
                } else {
                    assert(all.subrange(i, i + m)[gap - i] == ' ');
                    assert(!is_white(needle[gap - i]));
                }
            }
        }
    }
}

/// A word that does not stand in a text does not stand in it collapsed.
pub proof fn lemma_single_spaced_has_no_word(s: Seq<char>, needle: Seq<char>)
    requires
        is_word(needle),
        !has_text(s, needle),
    ensures
        !has_text(single_spaced(s), needle),
{
    lemma_words_have_no_text(s, needle);
    lemma_joined_has_no_word(words(s), needle);
}

/// The words of a text, a space and a word are those of the text and the word.
proof fn lemma_words_push(s: Seq<char>, w: Seq<char>)
    requires
        is_word(w),
    ensures
        words(s + seq![' '] + w) == words(s).push(w),
    decreases s.len(),
{
    let all = s + seq![' '] + w;
    if s.len() == 0 {
        assert(all.skip(1) =~= w);
        lemma_word_is_its_words(w);
        assert(words(s).push(w) =~= seq![w]);
    } else if is_white(s[0]) {
        assert(all.skip(1) =~= s.skip(1) + seq![' '] + w);
        lemma_words_push(s.skip(1), w);
    } else {
        let n = word_len(s) as int;
        lemma_word_len(s);
        lemma_word_len(all);
        assert(is_white(all[n]));
        if word_len(all) < n {
            assert(!is_white(s[word_len(all) as int]));
        }
        assert(word_len(all) == n);
        assert(all.take(n) =~= s.take(n));
        assert(all.skip(n) =~= s.skip(n) + seq![' '] + w);
        lemma_words_push(s.skip(n), w);
        assert(words(all) =~= words(s).push(w));
    }
}

/// A word is the one word in it.
proof fn lemma_word_is_its_words(w: Seq<char>)
    requires
        is_word(w),
    ensures
        words(w) == seq![w],
{
    lemma_word_len(w);
    if word_len(w) < w.len() {
        assert(!is_white(w[word_len(w) as int]));
    }
    assert(w.take(w.len() as int) =~= w);
    assert(words(w.skip(w.len() as int)) =~= seq![]);
    assert(words(w) =~= seq![w]);
}

/// Words with spaces between them are the words of the text.
proof fn lemma_words_of_joined(ws: Seq<Seq<char>>)
    requires
        forall|k: int| 0 <= k < ws.len() ==> is_word(#[trigger] ws[k]),
    ensures
        words(joined(ws, seq![' '])) == ws,
    decreases ws.len(),
{
    if ws.len() == 0 {
        assert(words(seq![]) =~= ws);
    } else if ws.len() == 1 {
        assert(is_word(ws[0]));
        lemma_word_is_its_words(ws[0]);
        assert(seq![ws[0]] =~= ws);
    } else {
        let init = ws.drop_last();
        assert forall|k: int| 0 <= k < init.len() implies is_word(#[trigger] init[k]) by {
            assert(init[k] == ws[k]);
        }
        lemma_words_of_joined(init);
        assert(is_word(ws[ws.len() - 1]));
        lemma_words_push(joined(init, seq![' ']), ws.last());
        assert(init.push(ws.last()) =~= ws);
    }
}

/// Collapsing whitespace keeps the words, so that collapsing again changes
/// nothing.
pub proof fn law_collapsing_is_final(s: Seq<char>)
    ensures
        words(single_spaced(s)) == words(s),
        single_spaced(single_spaced(s)) == single_spaced(s),
{
    lemma_words_are_words(s);
    lemma_words_of_joined(words(s));
}

/// Trimmed text neither starts nor ends with whitespace.
pub proof fn lemma_trimmed_ends(s: Seq<char>)
    ensures
        ({
            let t = trimmed(s);
            t.len() > 0 ==> !is_white(t[0]) && !is_white(t.last())
        }),
{
    lemma_trim_start_end(s);
    lemma_trim_end_ends(trim_start(s));
}

/// Text without leading whitespace does not start with it.
proof fn lemma_trim_start_end(s: Seq<char>)
    ensures
        trim_start(s).len() > 0 ==> !is_white(trim_start(s)[0]),
    decreases s.len(),
{
    if s.len() > 0 && is_white(s[0]) {
        lemma_trim_start_end(s.skip(1));
    }
}

/// Text without trailing whitespace does not end with it, and starts as before.
proof fn lemma_trim_end_ends(s: Seq<char>)
    ensures
        ({
            let t = trim_end(s);
            t.len() > 0 ==> !is_white(t.last()) && s.len() > 0 && t[0] == s[0]
        }),
    decreases s.len(),
{
    if s.len() > 0 && is_white(s.last()) {
        lemma_trim_end_ends(s.drop_last());
    }
}

/// Trimming takes no characters but from the ends.
pub proof fn lemma_trimmed_chars(s: Seq<char>, p: spec_fn(char) -> bool)
    requires
        s.all(p),
    ensures
        trimmed(s).all(p),
{
    lemma_trim_start_chars(s, p);
    lemma_trim_end_chars(trim_start(s), p);
}

/// Trimming the start brings in no character.
proof fn lemma_trim_start_chars(s: Seq<char>, p: spec_fn(char) -> bool)
    requires
        s.all(p),
    ensures
        trim_start(s).all(p),
    decreases s.len(),
{
    if s.len() > 0 && is_white(s[0]) {
        let rest = s.skip(1);
        assert forall|i: int| 0 <= i < rest.len() implies p(#[trigger] rest[i]) by {
            assert(p(s[i + 1]));
        }
        lemma_trim_start_chars(rest, p);
    }
}

/// Trimming the end brings in no character.
proof fn lemma_trim_end_chars(s: Seq<char>, p: spec_fn(char) -> bool)
    requires
        s.all(p),
    ensures
        trim_end(s).all(p),
    decreases s.len(),
{
    if s.len() > 0 && is_white(s.last()) {
        let rest = s.drop_last();
        assert forall|i: int| 0 <= i < rest.len() implies p(#[trigger] rest[i]) by {
            assert(p(s[i]));
        }
        lemma_trim_end_chars(rest, p);
    }
}

/// ASCII text that was trimmed and put in lower case stays the same when that is
/// done once more.
pub proof fn law_trimmed_lowercase_is_final(s: Seq<char>)
    requires
        vstd::utf8::is_ascii_chars(s),
    ensures
        ({
            let t = lowercase(trimmed(s));
            &&& vstd::utf8::is_ascii_chars(t)
            &&& lowercase(trimmed(t)) == t
        }),
{
    let p = |c: char| '\0' <= c <= '\u{7f}';
    assert(s.all(p)) by {
        assert forall|i: int| 0 <= i < s.len() implies p(#[trigger] s[i]) by {}
    }
    lemma_trimmed_chars(s, p);
    lemma_trimmed_ends(s);
    let u = trimmed(s);
    assert forall|i: int| 0 <= i < u.len() implies '\0' <= #[trigger] u[i] <= '\u{7f}' by {
        assert(p(u[i]));
    }
    assert(vstd::utf8::is_ascii_chars(u));
    let t = lowercase(u);
    assert forall|i: int| 0 <= i < t.len() implies #[trigger] t[i] == ascii_lower(u[i]) by {}
    assert(vstd::utf8::is_ascii_chars(t));
    assert(trimmed(t) == t);
    assert(lowercase(t) =~= t);
}

/// An optional string's characters are the string's own.
pub proof fn law_views_hold_the_characters(strings: Seq<String>, s: String, t: &str)
    ensures
        opt_view(Some(s)) == Some(s@),
        opt_view(None) is None,
        str_view(Some(t)) == Some(t@),
        str_view(None) is None,
        views(strings).len() == strings.len(),
        forall|i: int| 0 <= i < strings.len() ==> #[trigger] views(strings)[i] == strings[i]@,
{
}

/// Whitespace is tab to carriage return, the space, the next-line character, the
/// no-break space, the Ogham space mark, the spaces from en quad to hair space,
/// the line and paragraph separators, the narrow no-break space, the medium
/// mathematical space and the ideographic space; no other character is.
pub proof fn law_whitespace_by_code_point(c: char)
    ensures
        is_white(c) <==> {
            let v = c as int;
            9 <= v < 14 || v == 32 || v == 133 || v == 160 || v == 5760 || 8192 <= v < 8203 || v
                == 8232 || v == 8233 || v == 8239 || v == 8287 || v == 12288
        },
{
}

/// Replacing a character keeps the length; it changes just the positions where
/// that character stands, and each of them to the other.
pub proof fn law_characters_are_replaced_in_place(s: Seq<char>, from: char, to: char)
    ensures
        with_char_replaced(s, from, to).len() == s.len(),
        forall|i: int|
            0 <= i < s.len() && s[i] != from ==> #[trigger] with_char_replaced(s, from, to)[i]
                == s[i],
        forall|i: int|
            0 <= i < s.len() && s[i] == from ==> #[trigger] with_char_replaced(s, from, to)[i]
                == to,
{
}

/// A text starts with another exactly if it is that one and something after it,
/// and ends with another exactly if it is something and that one.
pub proof fn law_prefix_and_suffix(a: Seq<char>, b: Seq<char>, s: Seq<char>)
    ensures
        has_prefix(a + b, a),
        has_suffix(a + b, b),
        has_prefix(s, a) ==> s == a + s.skip(a.len() as int),
        has_suffix(s, b) ==> s == s.take(s.len() - b.len()) + b,
{
    assert((a + b).take(a.len() as int) =~= a);
    assert((a + b).skip((a + b).len() - b.len()) =~= b);
    if has_prefix(s, a) {
        assert(s =~= s.take(a.len() as int) + s.skip(a.len() as int));
    }
    if has_suffix(s, b) {
        assert(s =~= s.take(s.len() - b.len()) + s.skip(s.len() - b.len()));
    }
}

/// A text is found wherever it stands: between anything before it and anything
/// after it.
pub proof fn law_text_is_found(before: Seq<char>, needle: Seq<char>, after: Seq<char>)
    ensures
        has_text(before + needle + after, needle),
{
    let hay = before + needle + after;
    let i = before.len() as int;
    assert(hay.subrange(i, i + needle.len()) =~= needle);
    assert(occurs_at(hay, needle, i));
}

/// Where a text is found, what it is found in is something, that text, and
/// something after it.
pub proof fn law_found_text_is_there(hay: Seq<char>, needle: Seq<char>)
    requires
        has_text(hay, needle),
    ensures
        exists|before: Seq<char>, after: Seq<char>| hay == #[trigger] (before + needle + after),
{
    let i = choose|i: int| occurs_at(hay, needle, i);
    let before = hay.take(i);
    let after = hay.skip(i + needle.len());
    assert(hay =~= before + hay.subrange(i, i + needle.len()) + after);
    assert(hay == before + needle + after);
}

/// The first character is the null character.
proof fn lemma_no_character_below_nul(c: char)
    ensures
        '\0' <= c,
{
}

/// Of ASCII text the capitals `A` to `Z` become `a` to `z`, and every other
/// character stays as it is.
pub proof fn law_lower_case_of_ascii(s: Seq<char>)
    requires
        forall|i: int| 0 <= i < s.len() ==> (#[trigger] s[i]) as int <= 127,
    ensures
        lowercase(s).len() == s.len(),
        forall|i: int|
            0 <= i < s.len() ==> (#[trigger] lowercase(s)[i]) as int == if 65 <= s[i] as int <= 90 {
                s[i] as int + 32
            } else {
                s[i] as int
            },
{
    assert forall|i: int| 0 <= i < s.len() implies '\0' <= #[trigger] s[i] <= '\u{7f}' by {
        lemma_no_character_below_nul(s[i]);
    }
    assert(vstd::utf8::is_ascii_chars(s));
}

/// Trimmed text is a text's middle part: what is cut off in front and behind is
/// whitespace, and the part itself neither starts nor ends with whitespace.
pub proof fn law_trimming_cuts_off_whitespace(s: Seq<char>)
    ensures
        exists|from: int, to: int|
            {
                &&& 0 <= from <= to <= s.len()
                &&& trimmed(s) == #[trigger] s.subrange(from, to)
                &&& forall|i: int| 0 <= i < from ==> is_white(#[trigger] s[i])
                &&& forall|i: int| to <= i < s.len() ==> is_white(#[trigger] s[i])
                &&& from < to ==> !is_white(s[from]) && !is_white(s[to - 1])
            },
{
    let from = lemma_trim_start_cut(s);
    let rest = trim_start(s);
    let kept = lemma_trim_end_cut(rest);
    let to = from + kept;
    assert(rest.take(kept) =~= s.subrange(from, to));
    assert forall|i: int| to <= i < s.len() implies is_white(#[trigger] s[i]) by {
        assert(s[i] == rest[i - from]);
    }
    lemma_trimmed_ends(s);
    if from < to {
        assert(trimmed(s)[0] == s[from]);
        assert(trimmed(s).last() == s[to - 1]);
    }
    assert(trimmed(s) == s.subrange(from, to));
}

/// How much whitespace is cut off in front.
proof fn lemma_trim_start_cut(s: Seq<char>) -> (from: int)
    ensures
        0 <= from <= s.len(),
        trim_start(s) == s.skip(from),
        forall|i: int| 0 <= i < from ==> is_white(#[trigger] s[i]),
    decreases s.len(),
{
    if s.len() > 0 && is_white(s[0]) {
        let n = lemma_trim_start_cut(s.skip(1));
        assert(s.skip(1).skip(n) =~= s.skip(n + 1));
        assert forall|i: int| 0 <= i < n + 1 implies is_white(#[trigger] s[i]) by {
            if i > 0 {
                assert(s[i] == s.skip(1)[i - 1]);
            }
        }
        n + 1
    } else {
        assert(s.skip(0) =~= s);
        0
    }
}

/// How much is left when the whitespace behind is cut off.
proof fn lemma_trim_end_cut(s: Seq<char>) -> (kept: int)
    ensures
        0 <= kept <= s.len(),
        trim_end(s) == s.take(kept),
        forall|i: int| kept <= i < s.len() ==> is_white(#[trigger] s[i]),
    decreases s.len(),
{
    if s.len() > 0 && is_white(s.last()) {
        let n = lemma_trim_end_cut(s.drop_last());
        assert(s.drop_last().take(n) =~= s.take(n));
        assert forall|i: int| n <= i < s.len() implies is_white(#[trigger] s[i]) by {
            if i < s.len() - 1 {
                assert(s[i] == s.drop_last()[i]);
            }
        }
        n
    } else {
        assert(s.take(s.len() as int) =~= s);
        s.len() as int
    }
}

/// Whitespace around a text, whatever it is, is trimmed off: text that neither
/// starts nor ends with whitespace is what remains.
pub proof fn law_padding_is_trimmed(before: Seq<char>, s: Seq<char>, after: Seq<char>)
    requires
        forall|i: int| 0 <= i < before.len() ==> is_white(#[trigger] before[i]),
        forall|i: int| 0 <= i < after.len() ==> is_white(#[trigger] after[i]),
        s.len() > 0 ==> !is_white(s[0]) && !is_white(s.last()),
    ensures
        trimmed(before + s + after) == s,
{
    let all = before + s + after;
    law_trimming_cuts_off_whitespace(all);
    let (from, to) = choose|from: int, to: int|
        {
            &&& 0 <= from <= to <= all.len()
            &&& trimmed(all) == #[trigger] all.subrange(from, to)
            &&& forall|i: int| 0 <= i < from ==> is_white(#[trigger] all[i])
            &&& forall|i: int| to <= i < all.len() ==> is_white(#[trigger] all[i])
            &&& from < to ==> !is_white(all[from]) && !is_white(all[to - 1])
        };
    let m = before.len() as int;
    let n = m + s.len();
    if s.len() > 0 {
        assert(all[m] == s[0]);
        assert(all[n - 1] == s.last());
        assert(from <= m && n <= to);
        if from < m {
            assert(all[from] == before[from]);
        }
        if to > n {
            assert(all[to - 1] == after[to - 1 - n]);
        }
        assert(all.subrange(m, n) =~= s);
    } else if from < to {
        if from < m {
            assert(all[from] == before[from]);
        } else {
            assert(all[from] == after[from - m]);
        }
    } else {
        assert(all.subrange(from, to) =~= s);
    }
}

/// Trimming leaves nothing exactly of text that is whitespace throughout.
pub proof fn law_blank_text_is_trimmed_away(s: Seq<char>)
    ensures
        trimmed(s).len() == 0 <==> forall|i: int| 0 <= i < s.len() ==> is_white(#[trigger] s[i]),
{
    law_trimming_cuts_off_whitespace(s);
    let (from, to) = choose|from: int, to: int|
        {
            &&& 0 <= from <= to <= s.len()
            &&& trimmed(s) == #[trigger] s.subrange(from, to)
            &&& forall|i: int| 0 <= i < from ==> is_white(#[trigger] s[i])
            &&& forall|i: int| to <= i < s.len() ==> is_white(#[trigger] s[i])
            &&& from < to ==> !is_white(s[from]) && !is_white(s[to - 1])
        };
    assert(trimmed(s).len() == to - from);
}

/// A word that stands in a text still stands in it when it is trimmed, and the
/// other way round.
pub proof fn law_trimming_keeps_words(s: Seq<char>, word: Seq<char>)
    requires
        is_word(word),
    ensures
        has_text(trimmed(s), word) <==> has_text(s, word),
{
    law_trimming_cuts_off_whitespace(s);
    let (from, to) = choose|from: int, to: int|
        {
            &&& 0 <= from <= to <= s.len()
            &&& trimmed(s) == #[trigger] s.subrange(from, to)
            &&& forall|i: int| 0 <= i < from ==> is_white(#[trigger] s[i])
            &&& forall|i: int| to <= i < s.len() ==> is_white(#[trigger] s[i])
            &&& from < to ==> !is_white(s[from]) && !is_white(s[to - 1])
        };
    if has_text(trimmed(s), word) {
        lemma_part_has_text(s, word, from, to);
    }
    if has_text(s, word) {
        let i = choose|i: int| occurs_at(s, word, i);
        let m = word.len() as int;
        assert(s.subrange(i, i + m)[0] == word[0]);
        assert(s.subrange(i, i + m)[m - 1] == word[m - 1]);
        assert(!is_white(word[0]) && !is_white(word[m - 1]));
        assert(s[i] == word[0] && s[i + m - 1] == word[m - 1]);
        assert(from <= i && i + m <= to);
        assert(trimmed(s).subrange(i - from, i - from + m) =~= s.subrange(i, i + m));
        assert(occurs_at(trimmed(s), word, i - from));
    }
}

/// The words around a whitespace character are those before it and those after
/// it.
proof fn lemma_words_split(a: Seq<char>, c: char, b: Seq<char>)
    requires
        is_white(c),
    ensures
        words(a + seq![c] + b) == words(a) + words(b),
    decreases a.len(),
{
    let all = a + seq![c] + b;
    if a.len() == 0 {
        assert(all[0] == c);
        assert(all.skip(1) =~= b);
        assert(words(a) + words(b) =~= words(b));
    } else if is_white(a[0]) {
        assert(all.skip(1) =~= a.skip(1) + seq![c] + b);
        lemma_words_split(a.skip(1), c, b);
    } else {
        let n = word_len(a) as int;
        lemma_word_len(a);
        lemma_word_len(all);
        assert(is_white(all[n]));
        if word_len(all) < n {
            assert(!is_white(a[word_len(all) as int]));
        }
        assert(word_len(all) == n);
        assert(all.take(n) =~= a.take(n));
        assert(all.skip(n) =~= a.skip(n) + seq![c] + b);
        lemma_words_split(a.skip(n), c, b);
        assert(words(all) =~= words(a) + words(b));
    }
}

/// Pieces joined in two groups.
proof fn lemma_joined_split(a: Seq<Seq<char>>, b: Seq<Seq<char>>, sep: Seq<char>)
    ensures
        joined(a + b, sep) == joined(a, sep) + (if a.len() > 0 && b.len() > 0 {
            sep
        } else {
            seq![]
        }) + joined(b, sep),
    decreases b.len(),
{
    let all = a + b;
    if b.len() == 0 {
        assert(all =~= a);
        assert(joined(a, sep) + Seq::<char>::empty() + joined(b, sep) =~= joined(a, sep));
    } else if a.len() == 0 {
        assert(all =~= b);
        assert(joined(a, sep) + Seq::<char>::empty() + joined(b, sep) =~= joined(b, sep));
    } else {
        assert(all.drop_last() =~= a + b.drop_last());
        assert(all.last() == b.last());
        lemma_joined_split(a, b.drop_last(), sep);
        if b.len() == 1 {
            assert(b.drop_last() =~= seq![]);
            assert(a + b.drop_last() =~= a);
        } else {
            assert(joined(all, sep) =~= joined(a, sep) + sep + joined(b, sep));
        }
    }
}

/// A text has words exactly if what it collapses to is not empty.
proof fn lemma_collapsed_length(s: Seq<char>)
    ensures
        words(s).len() > 0 <==> single_spaced(s).len() > 0,
{
    lemma_words_are_words(s);
    lemma_joined_words(words(s));
}

/// Collapsing works on either side of a whitespace character by itself: between
/// the two results stands one space, or nothing where one of them is empty.
pub proof fn law_collapsing_breaks_at_whitespace(a: Seq<char>, c: char, b: Seq<char>)
    requires
        is_white(c),
    ensures
        single_spaced(a + seq![c] + b) == single_spaced(a) + (if single_spaced(a).len() > 0
            && single_spaced(b).len() > 0 {
            seq![' ']
        } else {
            seq![]
        }) + single_spaced(b),
{
    lemma_words_split(a, c, b);
    lemma_joined_split(words(a), words(b), seq![' ']);
    lemma_collapsed_length(a);
    lemma_collapsed_length(b);
}

/// Text that has no whitespace but single spaces between words is collapsed to
/// itself.
pub proof fn law_single_spaced_text_is_kept(s: Seq<char>)
    requires
        is_single_spaced(s),
    ensures
        single_spaced(s) == s,
    decreases s.len(),
{
    lemma_word_len(s);
    let n = word_len(s) as int;
    if s.len() == 0 {
        assert(words(s) =~= seq![]);
        assert(single_spaced(s) =~= s);
    } else if n == s.len() {
        lemma_word_is_its_words(s);
        assert(single_spaced(s) == seq![s][0]);
    } else {
        assert(is_white(s[n]));
        let a = s.take(n);
        let b = s.skip(n + 1);
        assert(s =~= a + seq![' '] + b);
        assert forall|i: int| 0 <= i < a.len() implies !is_white(#[trigger] a[i]) by {
            assert(a[i] == s[i]);
        }
        assert(is_word(a));
        lemma_word_is_its_words(a);
        assert(single_spaced(a) == seq![a][0]);
        assert(b[0] == s[n + 1]);
        assert(is_single_spaced(b)) by {
            assert forall|i: int| 0 <= i < b.len() && is_white(#[trigger] b[i]) implies {
                &&& b[i] == ' '
                &&& 0 < i < b.len() - 1
                &&& !is_white(b[i - 1])
                &&& !is_white(b[i + 1])
            } by {
                assert(b[i] == s[i + n + 1]);
                if i == 0 {
                    assert(!is_white(s[n + 1]));
                }
                assert(b[i - 1] == s[i + n]);
                assert(b[i + 1] == s[i + n + 2]);
            }
        }
        law_single_spaced_text_is_kept(b);
        law_collapsing_breaks_at_whitespace(a, ' ', b);
    }
}

/// Replacing works on either side of a character that the text to be replaced
/// does not hold by itself.
pub proof fn law_replacing_breaks_at_other_characters(
    a: Seq<char>,
    c: char,
    b: Seq<char>,
    pat: Seq<char>,
    with: Seq<char>,
)
    requires
        forall|k: int| 0 <= k < pat.len() ==> #[trigger] pat[k] != c,
    ensures
        with_text_replaced(a + seq![c] + b, pat, with) == with_text_replaced(a, pat, with) + seq![
            c,
        ] + with_text_replaced(b, pat, with),
    decreases a.len(),
{
    let s = a + seq![c] + b;
    let m = pat.len() as int;
    if m == 0 || s.len() < m {
    } else if a.len() == 0 {
        assert(s.take(m)[0] == c);
        assert(s.skip(1) =~= b);
        assert(with_text_replaced(s, pat, with) =~= with_text_replaced(a, pat, with) + seq![c]
            + with_text_replaced(b, pat, with));
    } else if a.len() >= m && a.take(m) == pat {
        assert(s.take(m) =~= a.take(m));
        assert(s.skip(m) =~= a.skip(m) + seq![c] + b);
        law_replacing_breaks_at_other_characters(a.skip(m), c, b, pat, with);
        assert(with_text_replaced(s, pat, with) =~= with_text_replaced(a, pat, with) + seq![c]
            + with_text_replaced(b, pat, with));
    } else {
        if s.take(m) == pat {
            if a.len() >= m {
                assert(a.take(m) =~= s.take(m));
            } else {
                assert(s.take(m)[a.len() as int] == c);
            }
        }
        assert(s.skip(1) =~= a.skip(1) + seq![c] + b);
        law_replacing_breaks_at_other_characters(a.skip(1), c, b, pat, with);
        assert(a =~= seq![a[0]] + a.skip(1));
        assert(s[0] == a[0]);
        assert(with_text_replaced(s, pat, with) =~= with_text_replaced(a, pat, with) + seq![c]
            + with_text_replaced(b, pat, with));
    }
}

/// Every occurrence of a text whose first character comes up in it only once is
/// replaced, and what stands before and after it is seen to by itself.
pub proof fn law_every_occurrence_is_replaced(
    a: Seq<char>,
    b: Seq<char>,
    pat: Seq<char>,
    with: Seq<char>,
)
    requires
        pat.len() > 0,
        forall|k: int| 0 < k < pat.len() ==> #[trigger] pat[k] != pat[0],
    ensures
        with_text_replaced(a + pat + b, pat, with) == with_text_replaced(a, pat, with) + with
            + with_text_replaced(b, pat, with),
    decreases a.len(),
{
    let s = a + pat + b;
    let m = pat.len() as int;
    if a.len() == 0 {
        assert(s.take(m) =~= pat);
        assert(s.skip(m) =~= b);
        assert(with_text_replaced(s, pat, with) =~= with_text_replaced(a, pat, with) + with
            + with_text_replaced(b, pat, with));
    } else if a.len() >= m && a.take(m) == pat {
        assert(s.take(m) =~= a.take(m));
        assert(s.skip(m) =~= a.skip(m) + pat + b);
        law_every_occurrence_is_replaced(a.skip(m), b, pat, with);
        assert(with_text_replaced(s, pat, with) =~= with_text_replaced(a, pat, with) + with
            + with_text_replaced(b, pat, with));
    } else {
        if s.take(m) == pat {
            if a.len() >= m {
                assert(a.take(m) =~= s.take(m));
            } else {
                assert(s.take(m)[a.len() as int] == pat[0]);
                assert(pat[a.len() as int] != pat[0]);
            }
        }
        assert(s.skip(1) =~= a.skip(1) + pat + b);
        law_every_occurrence_is_replaced(a.skip(1), b, pat, with);
        assert(a =~= seq![a[0]] + a.skip(1));
        assert(s[0] == a[0]);
        assert(with_text_replaced(s, pat, with) =~= with_text_replaced(a, pat, with) + with
            + with_text_replaced(b, pat, with));
    }
}

/// A text without any characters that are kept leaves nothing.
proof fn lemma_nothing_kept(s: Seq<char>, keep: spec_fn(char) -> bool)
    requires
        forall|i: int| 0 <= i < s.len() ==> !keep(#[trigger] s[i]),
    ensures
        s.filter(keep) == Seq::<char>::empty(),
    decreases s.len(),
{
    reveal(Seq::filter);
    if s.len() > 0 {
        let init = s.drop_last();
        assert forall|i: int| 0 <= i < init.len() implies !keep(#[trigger] init[i]) by {
            assert(init[i] == s[i]);
        }
        lemma_nothing_kept(init, keep);
        assert(!keep(s[s.len() - 1]));
    }
}

/// Collapsing whitespace loses no other character, brings in none and keeps
/// their order.
pub proof fn law_collapsing_keeps_other_characters(s: Seq<char>, keep: spec_fn(char) -> bool)
    requires
        forall|c: char| #[trigger] keep(c) ==> !is_white(c),
    ensures
        single_spaced(s).filter(keep) == s.filter(keep),
    decreases s.len(),
{
    lemma_word_len(s);
    let n = word_len(s) as int;
    if n == s.len() {
        assert(is_single_spaced(s));
        law_single_spaced_text_is_kept(s);
    } else {
        let a = s.take(n);
        let c = s[n];
        let b = s.skip(n + 1);
        assert(s =~= a + seq![c] + b);
        assert forall|i: int| 0 <= i < a.len() implies !is_white(#[trigger] a[i]) by {
            assert(a[i] == s[i]);
        }
        assert(is_single_spaced(a));
        law_single_spaced_text_is_kept(a);
        law_collapsing_breaks_at_whitespace(a, c, b);
        law_collapsing_keeps_other_characters(b, keep);
        let gap: Seq<char> = if single_spaced(a).len() > 0 && single_spaced(b).len() > 0 {
            seq![' ']
        } else {
            seq![]
        };
        lemma_nothing_kept(gap, keep);
        lemma_nothing_kept(seq![c], keep);
        Seq::filter_distributes_over_add(a + gap, single_spaced(b), keep);
        Seq::filter_distributes_over_add(a, gap, keep);
        Seq::filter_distributes_over_add(a + seq![c], b, keep);
        Seq::filter_distributes_over_add(a, seq![c], keep);
    }
}

/// Replacing a character leaves the others as they are, and in order.
pub proof fn law_replacing_a_character_keeps_the_others(
    s: Seq<char>,
    from: char,
    to: char,
    keep: spec_fn(char) -> bool,
)
    requires
        !keep(from),
        !keep(to),
    ensures
        with_char_replaced(s, from, to).filter(keep) == s.filter(keep),
    decreases s.len(),
{
    reveal(Seq::filter);
    let r = with_char_replaced(s, from, to);
    if s.len() > 0 {
        law_replacing_a_character_keeps_the_others(s.drop_last(), from, to, keep);
        assert(r.drop_last() =~= with_char_replaced(s.drop_last(), from, to));
    } else {
        assert(r =~= s);
    }
}

/// Replacing text leaves the characters that neither it nor its replacement
/// holds as they are, and in order.
pub proof fn law_replacing_text_keeps_the_others(
    s: Seq<char>,
    pat: Seq<char>,
    with: Seq<char>,
    keep: spec_fn(char) -> bool,
)
    requires
        forall|i: int| 0 <= i < pat.len() ==> !keep(#[trigger] pat[i]),
        forall|i: int| 0 <= i < with.len() ==> !keep(#[trigger] with[i]),
    ensures
        with_text_replaced(s, pat, with).filter(keep) == s.filter(keep),
    decreases s.len(),
{
    let m = pat.len() as int;
    if m == 0 || s.len() < m {
    } else if s.take(m) == pat {
        let rest = s.skip(m);
        law_replacing_text_keeps_the_others(rest, pat, with, keep);
        lemma_nothing_kept(pat, keep);
        lemma_nothing_kept(with, keep);
        assert(s =~= pat + rest);
        Seq::filter_distributes_over_add(pat, rest, keep);
        Seq::filter_distributes_over_add(with, with_text_replaced(rest, pat, with), keep);
    } else {
        let rest = s.skip(1);
        law_replacing_text_keeps_the_others(rest, pat, with, keep);
        assert(s =~= seq![s[0]] + rest);
        Seq::filter_distributes_over_add(seq![s[0]], rest, keep);
        Seq::filter_distributes_over_add(seq![s[0]], with_text_replaced(rest, pat, with), keep);
    }
}

/// Of text that is not all ASCII, the lower case is what the standard library
/// gives.
pub proof fn law_lower_case_beyond_ascii(s: Seq<char>, i: int)
    requires
        0 <= i < s.len(),
        s[i] as int > 127,
    ensures
        lowercase(s) == unicode_lowercase(s),
{
    assert(!('\0' <= s[i] <= '\u{7f}'));
    assert(!vstd::utf8::is_ascii_chars(s));
}

/// The first occurrence of a text is replaced; what stands before it is kept, and
/// what stands after it is seen to by itself.
pub proof fn law_first_occurrence_is_replaced(
    s: Seq<char>,
    pat: Seq<char>,
    with: Seq<char>,
    i: int,
)
    requires
        pat.len() > 0,
        0 <= i,
        i + pat.len() <= s.len(),
        s.subrange(i, i + pat.len()) == pat,
        forall|k: int| 0 <= k < i ==> #[trigger] s.subrange(k, k + pat.len()) != pat,
    ensures
        with_text_replaced(s, pat, with) == s.take(i) + with + with_text_replaced(
            s.skip(i + pat.len()),
            pat,
            with,
        ),
    decreases i,
{
    let m = pat.len() as int;
    assert(s.take(m) =~= s.subrange(0, m));
    if i == 0 {
        assert(s.take(0) + with =~= with);
    } else {
        assert(s.subrange(0, 0 + m) != pat);
        let rest = s.skip(1);
        assert(rest.subrange(i - 1, i - 1 + m) =~= s.subrange(i, i + m));
        assert forall|k: int| 0 <= k < i - 1 implies #[trigger] rest.subrange(k, k + m) != pat by {
            assert(rest.subrange(k, k + m) =~= s.subrange(k + 1, k + 1 + m));
        }
        law_first_occurrence_is_replaced(rest, pat, with, i - 1);
        assert(rest.skip(i - 1 + m) =~= s.skip(i + m));
        assert(seq![s[0]] + rest.take(i - 1) =~= s.take(i));
        assert(with_text_replaced(s, pat, with) =~= s.take(i) + with + with_text_replaced(
            s.skip(i + m),
            pat,
            with,
        ));
    }
}

}
