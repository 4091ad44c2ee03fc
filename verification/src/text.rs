//! Text on characters: trimming, words, lines, joining, decimal numbers and
//! cutting to a size in bytes.

use vstd::prelude::*;
use vstd::string::StrSliceExecFns;
use vstd::utf8::{encode_utf8, is_ascii_chars};

verus! {

/// `String::push` appends the given character to the end of the string.
pub assume_specification[ String::push ](s: &mut String, c: char)
    ensures
        final(s)@ == old(s)@.push(c),
;

/// `str` equality compares the characters of the two strings.
pub assume_specification[ <str as PartialEq>::eq ](a: &str, b: &str) -> (r: bool)
    ensures
        r == (a@ == b@),
;

/// The characters of each string of a list.
pub open spec fn texts(list: Seq<String>) -> Seq<Seq<char>> {
    list.map_values(|s: String| s@)
}

/// The characters of optional text.
pub open spec fn opt_chars(s: Option<String>) -> Option<Seq<char>> {
    match s {
        Some(text) => Some(text@),
        None => None,
    }
}

/// Whether two strings have the same characters.
pub fn same(a: &str, b: &str) -> (r: bool)
    ensures
        r == (a@ == b@),
{
    *a == *b
}

/// Unicode's White_Space property.
pub open spec fn is_white(c: char) -> bool {
    let u = c as u32;
    ||| 0x9 <= u <= 0xd
    ||| u == 0x20
    ||| u == 0x85
    ||| u == 0xa0
    ||| u == 0x1680
    ||| 0x2000 <= u <= 0x200a
    ||| u == 0x2028
    ||| u == 0x2029
    ||| u == 0x202f
    ||| u == 0x205f
    ||| u == 0x3000
}

/// `s` without its longest prefix of characters that satisfy `p`.
pub open spec fn skip_while(s: Seq<char>, p: spec_fn(char) -> bool) -> Seq<char>
    decreases s.len(),
{
    if s.len() > 0 && p(s[0]) {
        skip_while(s.drop_first(), p)
    } else {
        s
    }
}

/// `s` without its longest suffix of characters that satisfy `p`.
pub open spec fn drop_while_last(s: Seq<char>, p: spec_fn(char) -> bool) -> Seq<char>
    decreases s.len(),
{
    if s.len() > 0 && p(s.last()) {
        drop_while_last(s.drop_last(), p)
    } else {
        s
    }
}

/// `s` without the white space at its two ends.
pub open spec fn trimmed(s: Seq<char>) -> Seq<char> {
    drop_while_last(skip_while(s, |c: char| is_white(c)), |c: char| is_white(c))
}

/// `s` without the white space at its end.
pub open spec fn trimmed_end(s: Seq<char>) -> Seq<char> {
    drop_while_last(s, |c: char| is_white(c))
}

/// `s` without the occurrences of `q` at its two ends.
pub open spec fn trimmed_of(s: Seq<char>, q: char) -> Seq<char> {
    drop_while_last(skip_while(s, char_is(q)), char_is(q))
}

/// The predicate of being the character `q`.
pub open spec fn char_is(q: char) -> spec_fn(char) -> bool {
    |c: char| c == q
}

/// Whether `s` holds nothing but white space.
pub open spec fn is_blank(s: Seq<char>) -> bool {
    forall|i: int| 0 <= i < s.len() ==> is_white(#[trigger] s[i])
}

proof fn lemma_skip_while(s: Seq<char>, p: spec_fn(char) -> bool, i: int)
    requires
        0 <= i <= s.len(),
        forall|k: int| 0 <= k < i ==> p(#[trigger] s[k]),
        i < s.len() ==> !p(s[i]),
    ensures
        skip_while(s, p) == s.subrange(i, s.len() as int),
    decreases i,
{
    if i == 0 {
        assert(s.subrange(0, s.len() as int) =~= s);
    } else {
        assert(p(s[0]));
        let t = s.drop_first();
        assert forall|k: int| 0 <= k < i - 1 implies p(#[trigger] t[k]) by {
            assert(t[k] == s[k + 1]);
        }
        lemma_skip_while(t, p, i - 1);
        assert(t.subrange(i - 1, t.len() as int) =~= s.subrange(i, s.len() as int));
    }
}

proof fn lemma_drop_while_last(s: Seq<char>, p: spec_fn(char) -> bool, j: int)
    requires
        0 <= j <= s.len(),
        forall|k: int| j <= k < s.len() ==> p(#[trigger] s[k]),
        j > 0 ==> !p(s[j - 1]),
    ensures
        drop_while_last(s, p) == s.subrange(0, j),
    decreases s.len() - j,
{
    if j == s.len() {
        assert(s.subrange(0, j) =~= s);
    } else {
        assert(p(s[s.len() - 1]));
        let t = s.drop_last();
        assert forall|k: int| j <= k < t.len() implies p(#[trigger] t[k]) by {
            assert(t[k] == s[k]);
        }
        lemma_drop_while_last(t, p, j);
        assert(t.subrange(0, j) =~= s.subrange(0, j));
    }
}

/// What is left between the first and the last character that `p` rejects.
proof fn lemma_trim_between(s: Seq<char>, p: spec_fn(char) -> bool, i: int, j: int)
    requires
        0 <= i <= j <= s.len(),
        forall|k: int| 0 <= k < i ==> p(#[trigger] s[k]),
        forall|k: int| j <= k < s.len() ==> p(#[trigger] s[k]),
        i < s.len() ==> !p(s[i]),
        j > i ==> !p(s[j - 1]),
        i == j ==> i == s.len(),
    ensures
        drop_while_last(skip_while(s, p), p) == s.subrange(i, j),
{
    lemma_skip_while(s, p, i);
    let t = s.subrange(i, s.len() as int);
    assert forall|k: int| j - i <= k < t.len() implies p(#[trigger] t[k]) by {
        assert(t[k] == s[k + i]);
    }
    lemma_drop_while_last(t, p, j - i);
    assert(t.subrange(0, j - i) =~= s.subrange(i, j));
}

/// Blank text is what trimming leaves nothing of.
pub proof fn lemma_blank_trimmed(s: Seq<char>)
    ensures
        is_blank(s) <==> trimmed(s).len() == 0,
{
    let p = |c: char| is_white(c);
    if is_blank(s) {
        assert forall|k: int| 0 <= k < s.len() implies p(#[trigger] s[k]) by {}
        lemma_trim_between(s, p, s.len() as int, s.len() as int);
    } else {
        let w = choose|i: int| 0 <= i < s.len() && !is_white(#[trigger] s[i]);
        lemma_skip_while_keeps(s, p, w);
        let t = skip_while(s, p);
        let v = choose|i: int| 0 <= i < t.len() && !p(#[trigger] t[i]);
        lemma_drop_while_last_keeps(t, p, v);
    }
}

proof fn lemma_skip_while_keeps(s: Seq<char>, p: spec_fn(char) -> bool, w: int)
    requires
        0 <= w < s.len(),
        !p(s[w]),
    ensures
        exists|i: int| 0 <= i < skip_while(s, p).len() && !p(#[trigger] skip_while(s, p)[i]),
    decreases s.len(),
{
    if p(s[0]) {
        assert(s.drop_first()[w - 1] == s[w]);
        lemma_skip_while_keeps(s.drop_first(), p, w - 1);
        let t = skip_while(s.drop_first(), p);
        let i = choose|i: int| 0 <= i < t.len() && !p(#[trigger] t[i]);
        assert(skip_while(s, p)[i] == t[i]);
    } else {
        assert(!p(skip_while(s, p)[w]));
    }
}

proof fn lemma_drop_while_last_keeps(s: Seq<char>, p: spec_fn(char) -> bool, w: int)
    requires
        0 <= w < s.len(),
        !p(s[w]),
    ensures
        drop_while_last(s, p).len() > 0,
    decreases s.len(),
{
    if p(s.last()) {
        assert(s.drop_last()[w] == s[w]);
        lemma_drop_while_last_keeps(s.drop_last(), p, w);
    }
}

/// Trimmed text neither starts nor ends with white space.
pub proof fn lemma_trimmed_ends(s: Seq<char>)
    ensures
        trimmed(s).len() > 0 ==> !is_white(trimmed(s)[0]) && !is_white(trimmed(s).last()),
{
    let p = |c: char| is_white(c);
    lemma_skip_while_len(s, p);
    lemma_drop_while_last_is_prefix(skip_while(s, p), p);
}

/// Text without a character at its ends is a part of the text, and neither
/// starts nor ends with the character.
pub proof fn lemma_trimmed_of_is_part(s: Seq<char>, q: char)
    ensures
        trimmed_of(s, q).len() <= s.len(),
        forall|i: int|
            0 <= i < trimmed_of(s, q).len() ==> s.contains(#[trigger] trimmed_of(s, q)[i]),
        trimmed_of(s, q).len() == s.len() ==> trimmed_of(s, q) == s,
        trimmed_of(s, q).len() > 0 ==> trimmed_of(s, q)[0] != q && trimmed_of(s, q).last() != q,
{
    lemma_skip_while_len(s, char_is(q));
    lemma_ends_skipped(s, char_is(q));
    lemma_drop_while_last_is_prefix(skip_while(s, char_is(q)), char_is(q));
}

/// Trimmed text is a part of the text.
pub proof fn lemma_trimmed_is_part(s: Seq<char>)
    ensures
        trimmed(s).len() <= s.len(),
        forall|i: int| 0 <= i < trimmed(s).len() ==> s.contains(#[trigger] trimmed(s)[i]),
        trimmed(s).len() == s.len() ==> trimmed(s) == s,
{
    lemma_ends_skipped(s, |c: char| is_white(c));
}

proof fn lemma_ends_skipped(s: Seq<char>, p: spec_fn(char) -> bool)
    ensures
        ({
            let r = drop_while_last(skip_while(s, p), p);
            &&& r.len() <= s.len()
            &&& forall|i: int| 0 <= i < r.len() ==> s.contains(#[trigger] r[i])
            &&& r.len() == s.len() ==> r == s
        }),
{
    let t = skip_while(s, p);
    let r = drop_while_last(t, p);
    lemma_skip_while_is_suffix(s, p);
    lemma_drop_while_last_is_prefix(t, p);
    assert forall|i: int| 0 <= i < r.len() implies s.contains(#[trigger] r[i]) by {
        assert(r[i] == t[i]);
        assert(s[s.len() - t.len() + i] == t[i]);
    }
    if r.len() == s.len() {
        assert(r =~= s);
    }
}

/// Text without white space at its end is the start of the text; it takes no
/// more bytes, and is not empty where the text starts with something else.
pub proof fn lemma_trimmed_end(s: Seq<char>)
    ensures
        trimmed_end(s).len() <= s.len(),
        trimmed_end(s) == s.take(trimmed_end(s).len() as int),
        byte_len(trimmed_end(s)) <= byte_len(s),
        s.len() > 0 && !is_white(s[0]) ==> trimmed_end(s).len() > 0,
        trimmed_end(s).len() > 0 ==> !is_white(trimmed_end(s).last()),
{
    let p = |c: char| is_white(c);
    lemma_drop_while_last_is_prefix(s, p);
    lemma_byte_len_take(s, trimmed_end(s).len() as int);
    assert(trimmed_end(s) =~= s.take(trimmed_end(s).len() as int));
    if s.len() > 0 && !is_white(s[0]) {
        lemma_drop_while_last_keeps(s, p, 0);
    }
}

proof fn lemma_skip_while_is_suffix(s: Seq<char>, p: spec_fn(char) -> bool)
    ensures
        skip_while(s, p).len() <= s.len(),
        skip_while(s, p) == s.subrange(s.len() - skip_while(s, p).len(), s.len() as int),
    decreases s.len(),
{
    if s.len() > 0 && p(s[0]) {
        let t = s.drop_first();
        lemma_skip_while_is_suffix(t, p);
        let n = skip_while(s, p).len();
        assert(t.subrange(t.len() - n, t.len() as int) =~= s.subrange(s.len() - n, s.len() as int));
    } else {
        assert(s.subrange(0, s.len() as int) =~= s);
    }
}

proof fn lemma_drop_while_last_is_prefix(s: Seq<char>, p: spec_fn(char) -> bool)
    ensures
        drop_while_last(s, p).len() <= s.len(),
        drop_while_last(s, p) == s.subrange(0, drop_while_last(s, p).len() as int),
        drop_while_last(s, p).len() > 0 ==> !p(drop_while_last(s, p).last()),
    decreases s.len(),
{
    if s.len() > 0 && p(s.last()) {
        lemma_drop_while_last_is_prefix(s.drop_last(), p);
        let n = drop_while_last(s, p).len() as int;
        assert(s.drop_last().subrange(0, n) =~= s.subrange(0, n));
    } else {
        assert(s.subrange(0, s.len() as int) =~= s);
    }
}

/// Whether a character is white space.
pub fn is_whitespace(c: char) -> (r: bool)
    ensures
        r == is_white(c),
{
    let u: u32 = c as u32;
    (0x9 <= u && u <= 0xd) || u == 0x20 || u == 0x85 || u == 0xa0 || u == 0x1680 || (0x2000 <= u
        && u <= 0x200a) || u == 0x2028 || u == 0x2029 || u == 0x202f || u == 0x205f || u == 0x3000
}

/// The characters of a string.
pub fn chars_of(s: &str) -> (r: Vec<char>)
    ensures
        r@ == s@,
{
    let mut r: Vec<char> = Vec::new();
    for c in it: s.chars()
        invariant
            it.seq() == s@,
            r@ == s@.take(it.index() as int),
    {
        r.push(c);
        assert(s@.take(it.index() + 1) =~= s@.take(it.index() as int).push(c));
    }
    assert(s@.take(s@.len() as int) =~= s@);
    r
}

/// The string of the characters `from..to` of `chars`.
pub fn string_of(chars: &Vec<char>, from: usize, to: usize) -> (r: String)
    requires
        from <= to <= chars@.len(),
    ensures
        r@ == chars@.subrange(from as int, to as int),
{
    let mut r: String = String::new();
    let mut i: usize = from;
    assert(r@ =~= chars@.subrange(from as int, from as int));
    while i < to
        invariant
            from <= i <= to <= chars@.len(),
            r@ == chars@.subrange(from as int, i as int),
        decreases to - i,
    {
        r.push(chars[i]);
        assert(chars@.subrange(from as int, i + 1) =~= chars@.subrange(from as int, i as int).push(
            chars@[i as int],
        ));
        i = i + 1;
    }
    r
}

/// `s` without the white space at its two ends, as `str::trim` gives it.
pub fn trim(s: &str) -> (r: String)
    ensures
        r@ == trimmed(s@),
{
    let chars: Vec<char> = chars_of(s);
    let n: usize = chars.len();
    let ghost p = |c: char| is_white(c);
    let mut i: usize = 0;
    while i < n && is_whitespace(chars[i])
        invariant
            0 <= i <= n == chars@.len(),
            forall|k: int| 0 <= k < i ==> is_white(#[trigger] chars@[k]),
        decreases n - i,
    {
        i = i + 1;
    }
    let mut j: usize = n;
    while j > i && is_whitespace(chars[j - 1])
        invariant
            i <= j <= n == chars@.len(),
            forall|k: int| j <= k < n ==> is_white(#[trigger] chars@[k]),
        decreases j,
    {
        j = j - 1;
    }
    proof {
        if i == j && i < n {
            assert(is_white(chars@[i as int]));
        }
        lemma_trim_between(s@, p, i as int, j as int);
    }
    string_of(&chars, i, j)
}

/// `s` without the white space at its end, as `str::trim_end` gives it.
pub fn trim_end(s: &str) -> (r: String)
    ensures
        r@ == trimmed_end(s@),
{
    let chars: Vec<char> = chars_of(s);
    let n: usize = chars.len();
    let mut j: usize = n;
    while j > 0 && is_whitespace(chars[j - 1])
        invariant
            j <= n == chars@.len(),
            forall|k: int| j <= k < n ==> is_white(#[trigger] chars@[k]),
        decreases j,
    {
        j = j - 1;
    }
    proof {
        lemma_drop_while_last(s@, |c: char| is_white(c), j as int);
    }
    string_of(&chars, 0, j)
}

/// `s` without the occurrences of `q` at its two ends, as `str::trim_matches` gives it.
pub fn trim_char(s: &str, q: char) -> (r: String)
    ensures
        r@ == trimmed_of(s@, q),
{
    let chars: Vec<char> = chars_of(s);
    let n: usize = chars.len();
    let mut i: usize = 0;
    while i < n && chars[i] == q
        invariant
            0 <= i <= n == chars@.len(),
            forall|k: int| 0 <= k < i ==> #[trigger] chars@[k] == q,
        decreases n - i,
    {
        i = i + 1;
    }
    let mut j: usize = n;
    while j > i && chars[j - 1] == q
        invariant
            i <= j <= n == chars@.len(),
            forall|k: int| j <= k < n ==> #[trigger] chars@[k] == q,
        decreases j,
    {
        j = j - 1;
    }
    proof {
        if i == j && i < n {
            assert(chars@[i as int] == q);
        }
        lemma_trim_between(s@, char_is(q), i as int, j as int);
    }
    string_of(&chars, i, j)
}

/// Whether nothing is left of `s` after trimming.
pub fn blank(s: &str) -> (r: bool)
    ensures
        r == is_blank(s@),
{
    for c in it: s.chars()
        invariant
            it.seq() == s@,
            forall|k: int| 0 <= k < it.index() ==> is_white(#[trigger] s@[k]),
    {
        if !is_whitespace(c) {
            assert(!is_white(s@[it.index() as int]));
            return false;
        }
    }
    true
}

/// Optional text that is not blank.
pub open spec fn unless_blank_chars(s: Option<Seq<char>>) -> Option<Seq<char>> {
    if s is Some && !is_blank(s->0) {
        s
    } else {
        None
    }
}

/// Optional text that is not blank.
pub fn unless_blank(s: Option<String>) -> (r: Option<String>)
    ensures
        opt_chars(r) == unless_blank_chars(opt_chars(s)),
{
    match s {
        Some(text) => {
            if blank(text.as_str()) {
                None
            } else {
                Some(text)
            }
        },
        None => None,
    }
}

/// `s` without `prefix` at its start, where it has it.
pub open spec fn prefix_stripped(s: Seq<char>, prefix: Seq<char>) -> Option<Seq<char>> {
    if prefix.is_prefix_of(s) {
        Some(s.subrange(prefix.len() as int, s.len() as int))
    } else {
        None
    }
}

/// `s` without `prefix` at its start, as `str::strip_prefix` gives it.
pub fn strip_prefix(s: &str, prefix: &str) -> (r: Option<String>)
    ensures
        match r {
            Some(rest) => prefix_stripped(s@, prefix@) == Some(rest@),
            None => prefix_stripped(s@, prefix@) is None,
        },
{
    let a: Vec<char> = chars_of(s);
    let b: Vec<char> = chars_of(prefix);
    if b.len() > a.len() {
        return None;
    }
    let mut i: usize = 0;
    while i < b.len()
        invariant
            0 <= i <= b@.len() <= a@.len(),
            a@ == s@,
            b@ == prefix@,
            forall|k: int| 0 <= k < i ==> #[trigger] b@[k] == a@[k],
        decreases b@.len() - i,
    {
        if a[i] != b[i] {
            assert(prefix@[i as int] != s@.take(prefix@.len() as int)[i as int]);
            return None;
        }
        i = i + 1;
    }
    assert(prefix@ =~= s@.subrange(0, prefix@.len() as int));
    Some(string_of(&a, b.len(), a.len()))
}

/// The number of characters before the first white space of `s`.
pub open spec fn word_len(s: Seq<char>) -> nat
    decreases s.len(),
{
    if s.len() == 0 || is_white(s[0]) {
        0
    } else {
        1 + word_len(s.drop_first())
    }
}

proof fn lemma_word_len(s: Seq<char>, n: int)
    requires
        0 <= n <= s.len(),
        forall|k: int| 0 <= k < n ==> !is_white(#[trigger] s[k]),
        n < s.len() ==> is_white(s[n]),
    ensures
        word_len(s) == n,
    decreases n,
{
    if n > 0 {
        assert(!is_white(s[0]));
        let t = s.drop_first();
        assert forall|k: int| 0 <= k < n - 1 implies !is_white(#[trigger] t[k]) by {
            assert(t[k] == s[k + 1]);
        }
        lemma_word_len(t, n - 1);
    }
}

/// A word is no longer than the text it starts.
pub proof fn lemma_word_len_bound(s: Seq<char>)
    ensures
        word_len(s) <= s.len(),
    decreases s.len(),
{
    if s.len() > 0 && !is_white(s[0]) {
        lemma_word_len_bound(s.drop_first());
    }
}

/// Skipping a prefix leaves no more than there was, and stops at a rejected character.
pub proof fn lemma_skip_while_len(s: Seq<char>, p: spec_fn(char) -> bool)
    ensures
        skip_while(s, p).len() <= s.len(),
        skip_while(s, p).len() > 0 ==> !p(skip_while(s, p)[0]),
    decreases s.len(),
{
    if s.len() > 0 && p(s[0]) {
        lemma_skip_while_len(s.drop_first(), p);
    }
}

/// The maximal runs of non-white characters of `s`, in order.
pub open spec fn words(s: Seq<char>) -> Seq<Seq<char>>
    decreases s.len(),
{
    let t = skip_while(s, |c: char| is_white(c));
    if t.len() == 0 {
        Seq::empty()
    } else {
        proof {
            lemma_skip_while_len(s, |c: char| is_white(c));
            lemma_word_len_bound(t);
        }
        seq![t.subrange(0, word_len(t) as int)] + words(
            t.subrange(word_len(t) as int, t.len() as int),
        )
    }
}

/// The words of `s`, as `str::split_whitespace` gives them.
pub fn split_words(s: &str) -> (r: Vec<String>)
    ensures
        texts(r@) == words(s@),
{
    let chars: Vec<char> = chars_of(s);
    let n: usize = chars.len();
    let mut r: Vec<String> = Vec::new();
    let mut i: usize = 0;
    let ghost p = |c: char| is_white(c);
    assert(s@.subrange(0, n as int) =~= s@);
    assert(texts(r@) + words(s@) =~= words(s@));
    loop
        invariant
            i <= n == chars@.len(),
            chars@ == s@,
            p == (|c: char| is_white(c)),
            texts(r@) + words(s@.subrange(i as int, n as int)) == words(s@),
        ensures
            texts(r@) == words(s@),
        decreases n - i,
    {
        let ghost rest = s@.subrange(i as int, n as int);
        let mut a: usize = i;
        while a < n && is_whitespace(chars[a])
            invariant
                i <= a <= n == chars@.len(),
                chars@ == s@,
                rest == s@.subrange(i as int, n as int),
                forall|k: int| 0 <= k < a - i ==> is_white(#[trigger] rest[k]),
            decreases n - a,
        {
            assert(rest[a - i] == chars@[a as int]);
            a = a + 1;
        }
        let ghost t = s@.subrange(a as int, n as int);
        proof {
            assert(a < n ==> rest[a - i] == s@[a as int]);
            lemma_skip_while(rest, p, a - i);
            assert(rest.subrange(a - i, rest.len() as int) =~= t);
        }
        if a == n {
            assert(words(rest) =~= Seq::<Seq<char>>::empty());
            assert(texts(r@) + words(rest) =~= texts(r@));
            break;
        }
        let mut b: usize = a;
        while b < n && !is_whitespace(chars[b])
            invariant
                a <= b <= n == chars@.len(),
                chars@ == s@,
                t == s@.subrange(a as int, n as int),
                forall|k: int| 0 <= k < b - a ==> !is_white(#[trigger] t[k]),
            decreases n - b,
        {
            assert(t[b - a] == chars@[b as int]);
            b = b + 1;
        }
        proof {
            assert(b < n ==> t[b - a] == s@[b as int]);
            assert(t[0] == s@[a as int]);
            lemma_word_len(t, b - a);
            assert(t.subrange(0, b - a) =~= s@.subrange(a as int, b as int));
            assert(t.subrange(b - a, t.len() as int) =~= s@.subrange(b as int, n as int));
        }
        let ghost before = texts(r@);
        let w: String = string_of(&chars, a, b);
        r.push(w);
        proof {
            assert(texts(r@) =~= before.push(s@.subrange(a as int, b as int)));
            let tail = words(s@.subrange(b as int, n as int));
            assert(before + (seq![s@.subrange(a as int, b as int)] + tail) =~= texts(r@) + tail);
        }
        i = b;
    }
    r
}

/// The strings of `parts`, in order, with `sep` between each two of them.
pub open spec fn joined(parts: Seq<Seq<char>>, sep: Seq<char>) -> Seq<char>
    decreases parts.len(),
{
    if parts.len() == 0 {
        Seq::empty()
    } else if parts.len() == 1 {
        parts[0]
    } else {
        joined(parts.drop_last(), sep) + sep + parts.last()
    }
}

/// The strings of `parts` with `sep` between them, as `[String]::join` gives them.
pub fn join(parts: &Vec<String>, sep: &str) -> (r: String)
    ensures
        r@ == joined(texts(parts@), sep@),
{
    let mut r: String = String::new();
    let mut i: usize = 0;
    let ghost all = texts(parts@);
    assert(r@ =~= joined(all.take(0), sep@));
    while i < parts.len()
        invariant
            0 <= i <= parts@.len() == all.len(),
            all == texts(parts@),
            r@ == joined(all.take(i as int), sep@),
        decreases parts@.len() - i,
    {
        let ghost so_far = all.take(i as int);
        let ghost next = all.take(i + 1);
        assert(next.drop_last() =~= so_far);
        assert(next.last() == parts@[i as int]@);
        if i > 0 {
            r.append(sep);
        }
        r.append(parts[i].as_str());
        assert(r@ =~= joined(next, sep@));
        i = i + 1;
    }
    assert(all.take(all.len() as int) =~= all);
    r
}

/// The position of the first occurrence of `c` in `s`, or the length of `s`.
pub open spec fn find_char(s: Seq<char>, c: char) -> nat
    decreases s.len(),
{
    if s.len() == 0 || s[0] == c {
        0
    } else {
        1 + find_char(s.drop_first(), c)
    }
}

proof fn lemma_find_char(s: Seq<char>, c: char, n: int)
    requires
        0 <= n <= s.len(),
        forall|k: int| 0 <= k < n ==> #[trigger] s[k] != c,
        n < s.len() ==> s[n] == c,
    ensures
        find_char(s, c) == n,
    decreases n,
{
    if n > 0 {
        assert(s[0] != c);
        let t = s.drop_first();
        assert forall|k: int| 0 <= k < n - 1 implies #[trigger] t[k] != c by {
            assert(t[k] == s[k + 1]);
        }
        lemma_find_char(t, c, n - 1);
    }
}

/// The characters before the first occurrence of `c` are others.
pub proof fn lemma_find_char_first(s: Seq<char>, c: char)
    ensures
        find_char(s, c) <= s.len(),
        !s.subrange(0, find_char(s, c) as int).contains(c),
        find_char(s, c) < s.len() ==> s[find_char(s, c) as int] == c,
    decreases s.len(),
{
    if s.len() > 0 && s[0] != c {
        let t = s.drop_first();
        let n = find_char(t, c) as int;
        lemma_find_char_first(t, c);
        let head = s.subrange(0, n + 1);
        assert forall|i: int| 0 <= i < head.len() implies #[trigger] head[i] != c by {
            if i > 0 {
                assert(t.subrange(0, n)[i - 1] == head[i]);
                assert(t.subrange(0, n).contains(t.subrange(0, n)[i - 1]));
            }
        }
    }
}

/// The first line of `s`: what stands before its first line feed, without a
/// carriage return directly before that line feed.
pub open spec fn line_first(s: Seq<char>) -> Seq<char> {
    let n = find_char(s, '\n') as int;
    if n < s.len() && n > 0 && s[n - 1] == '\r' {
        s.subrange(0, n - 1)
    } else {
        s.subrange(0, n)
    }
}

/// The first line of `s`, as `str::lines` gives it; the empty string has the empty line.
pub fn first_line(s: &str) -> (r: String)
    ensures
        r@ == line_first(s@),
{
    let chars: Vec<char> = chars_of(s);
    let mut n: usize = 0;
    while n < chars.len() && chars[n] != '\n'
        invariant
            0 <= n <= chars@.len(),
            forall|k: int| 0 <= k < n ==> #[trigger] chars@[k] != '\n',
        decreases chars@.len() - n,
    {
        n = n + 1;
    }
    proof {
        lemma_find_char(s@, '\n', n as int);
    }
    if n < chars.len() && n > 0 && chars[n - 1] == '\r' {
        string_of(&chars, 0, n - 1)
    } else {
        string_of(&chars, 0, n)
    }
}

/// Whether `needle` occurs in `s`.
pub open spec fn occurs_in(needle: Seq<char>, s: Seq<char>) -> bool {
    exists|i: int| #[trigger] occurs_at(needle, s, i)
}

/// Whether `needle` occurs in `s` at position `i`.
pub open spec fn occurs_at(needle: Seq<char>, s: Seq<char>, i: int) -> bool {
    0 <= i && i + needle.len() <= s.len() && s.subrange(i, i + needle.len()) == needle
}

/// Whether `needle` occurs in `s`, as `str::contains` decides it.
pub fn contains(s: &str, needle: &str) -> (r: bool)
    ensures
        r == occurs_in(needle@, s@),
{
    let a: Vec<char> = chars_of(s);
    let b: Vec<char> = chars_of(needle);
    if b.len() > a.len() {
        return false;
    }
    let last: usize = a.len() - b.len();
    let mut i: usize = 0;
    while i <= last
        invariant
            i <= last + 1,
            last == a.len() - b.len(),
            a@ == s@,
            b@ == needle@,
            forall|k: int| 0 <= k < i ==> !#[trigger] occurs_at(needle@, s@, k),
        decreases last + 1 - i,
    {
        let mut j: usize = 0;
        while j < b.len() && a[i + j] == b[j]
            invariant
                0 <= j <= b@.len(),
                i <= last == a.len() - b.len(),
                forall|k: int| 0 <= k < j ==> #[trigger] b@[k] == a@[i + k],
            decreases b@.len() - j,
        {
            j = j + 1;
        }
        if j == b.len() {
            assert(s@.subrange(i as int, i + needle@.len()) =~= needle@);
            assert(occurs_at(needle@, s@, i as int));
            return true;
        }
        assert(s@.subrange(i as int, i + needle@.len())[j as int] != needle@[j as int]);
        if i == last {
            assert forall|k: int| !#[trigger] occurs_at(needle@, s@, k) by {}
            return false;
        }
        i = i + 1;
    }
    false
}

/// The first `max` characters of `s`, or all of it where it has no more.
pub open spec fn first_chars(s: Seq<char>, max: int) -> Seq<char> {
    if s.len() <= max {
        s
    } else {
        s.take(max)
    }
}

/// The last `max` characters of `s`, or all of it where it has no more.
pub open spec fn last_chars(s: Seq<char>, max: int) -> Seq<char> {
    if s.len() <= max {
        s
    } else {
        s.skip(s.len() - max)
    }
}

/// At most the first `max` characters of `s`.
pub fn take_chars(s: &str, max: usize) -> (r: String)
    ensures
        r@ == first_chars(s@, max as int),
{
    let chars: Vec<char> = chars_of(s);
    let n: usize = if chars.len() <= max {
        chars.len()
    } else {
        max
    };
    assert(s@.subrange(0, n as int) =~= first_chars(s@, max as int));
    string_of(&chars, 0, n)
}

/// At most the last `max` characters of `s`.
pub fn keep_last_chars(s: &str, max: usize) -> (r: String)
    ensures
        r@ == last_chars(s@, max as int),
{
    let chars: Vec<char> = chars_of(s);
    let from: usize = if chars.len() <= max {
        0
    } else {
        chars.len() - max
    };
    assert(s@.subrange(from as int, s@.len() as int) =~= last_chars(s@, max as int));
    string_of(&chars, from, chars.len())
}

/// The character of a decimal digit.
pub open spec fn digit(d: nat) -> char {
    (48 + d) as char
}

/// The decimal digits of `n`, without leading zeros.
pub open spec fn decimal(n: nat) -> Seq<char>
    decreases n,
{
    if n < 10 {
        seq![digit(n)]
    } else {
        decimal(n / 10).push(digit(n % 10))
    }
}

/// The decimal digits of `n`, after a minus sign where `n` is negative.
pub open spec fn decimal_signed(n: int) -> Seq<char> {
    if n < 0 {
        seq!['-'] + decimal((-n) as nat)
    } else {
        decimal(n as nat)
    }
}

/// The number that a row of decimal digits stands for.
pub open spec fn digits_value(s: Seq<char>) -> int
    decreases s.len(),
{
    if s.len() == 0 {
        0
    } else {
        10 * digits_value(s.drop_last()) + (s.last() as int - 48)
    }
}

/// The digits of a number stand for that number.
pub proof fn lemma_decimal_value(n: nat)
    ensures
        digits_value(decimal(n)) == n,
        decimal(n).len() > 0,
    decreases n,
{
    reveal_with_fuel(digits_value, 2);
    if n < 10 {
        assert(decimal(n).drop_last() =~= Seq::empty());
    } else {
        lemma_decimal_value(n / 10);
        assert(decimal(n).drop_last() =~= decimal(n / 10));
    }
}

/// Different numbers have different digits.
pub proof fn lemma_decimal_injective(m: nat, n: nat)
    requires
        decimal(m) == decimal(n),
    ensures
        m == n,
{
    lemma_decimal_value(m);
    lemma_decimal_value(n);
}

fn digit_char(d: u8) -> (r: char)
    requires
        d < 10,
    ensures
        r == digit(d as nat),
{
    (48 + d) as char
}

/// The decimal digits of `n`, as its `to_string` gives them.
pub fn decimal_of(n: u128) -> (r: String)
    ensures
        r@ == decimal(n as nat),
    decreases n,
{
    if n < 10 {
        let mut r: String = String::new();
        r.push(digit_char(n as u8));
        assert(r@ =~= decimal(n as nat));
        r
    } else {
        let mut r: String = decimal_of(n / 10);
        r.push(digit_char((n % 10) as u8));
        r
    }
}

/// The decimal digits of `n`, signed, as its `to_string` gives them.
pub fn decimal_of_signed(n: i32) -> (r: String)
    ensures
        r@ == decimal_signed(n as int),
{
    if n < 0 {
        let mut r: String = String::new();
        r.push('-');
        let m: i64 = -(n as i64);
        let digits: String = decimal_of(m as u128);
        r.append(digits.as_str());
        assert(r@ =~= decimal_signed(n as int));
        r
    } else {
        decimal_of(n as u128)
    }
}

/// The lowercase equivalent of a text, as `str::to_lowercase` gives it.
pub uninterp spec fn lowercase(s: Seq<char>) -> Seq<char>;

/// The lowercase form of an ASCII letter; any other character stays.
pub open spec fn ascii_lower(c: char) -> char {
    if 'A' <= c <= 'Z' {
        (c as u32 + 32) as char
    } else {
        c
    }
}

/// `str::to_lowercase` depends on the text alone; ASCII text it changes letter
/// by letter.
#[verifier::external_body]
pub(crate) fn to_lowercase(s: &str) -> (r: String)
    ensures
        r@ == lowercase(s@),
        is_ascii_chars(s@) ==> r@ == s@.map_values(|c: char| ascii_lower(c)),
{
    s.to_lowercase()
}

/// The number of bytes of the UTF-8 encoding of `s`.
pub open spec fn byte_len(s: Seq<char>) -> nat {
    encode_utf8(s).len()
}

/// The number of bytes of the UTF-8 encoding of `c`.
pub open spec fn char_width(c: char) -> nat {
    byte_len(seq![c])
}

/// The number of characters of the longest prefix of `s` that takes at most `max` bytes.
pub open spec fn fitting(s: Seq<char>, max: int) -> nat
    decreases s.len(),
{
    if s.len() == 0 || char_width(s[0]) > max {
        0
    } else {
        1 + fitting(s.drop_first(), max - char_width(s[0]))
    }
}

/// What marks a text that was cut.
pub open spec fn cut_mark() -> Seq<char> {
    "\n… (truncated)"@
}

/// `s` cut to at most `max` bytes on a character boundary, the cut being marked.
pub open spec fn truncated(s: Seq<char>, max: int) -> Seq<char> {
    if byte_len(s) <= max {
        s
    } else {
        s.take(fitting(s, max) as int) + cut_mark()
    }
}

/// A character takes one byte to four.
pub proof fn lemma_char_width(c: char)
    ensures
        char_width(c) == vstd::utf8::encode_scalar(c as u32).len(),
        1 <= char_width(c) <= 4,
{
    assert(seq![c].drop_first() =~= Seq::empty());
    reveal_with_fuel(encode_utf8, 2);
    vstd::utf8::char_is_scalar(c);
}

proof fn lemma_byte_len_first(s: Seq<char>)
    requires
        s.len() > 0,
    ensures
        byte_len(s) == char_width(s[0]) + byte_len(s.drop_first()),
{
    lemma_char_width(s[0]);
}

/// The longest fitting prefix takes at most `max` bytes, and one more character would not.
pub proof fn lemma_fitting(s: Seq<char>, max: int)
    requires
        max >= 0,
    ensures
        fitting(s, max) <= s.len(),
        byte_len(s.take(fitting(s, max) as int)) <= max,
        fitting(s, max) < s.len() ==> byte_len(s.take(fitting(s, max) as int + 1)) > max,
    decreases s.len(),
{
    let k = fitting(s, max) as int;
    if s.len() == 0 {
        assert(s.take(0) =~= Seq::empty());
    } else if char_width(s[0]) > max {
        assert(s.take(0) =~= Seq::empty());
        assert(s.take(1) =~= seq![s[0]]);
    } else {
        let t = s.drop_first();
        let m = max - char_width(s[0]);
        lemma_fitting(t, m);
        assert(s.take(k).drop_first() =~= t.take(k - 1));
        lemma_byte_len_first(s.take(k));
        if k < s.len() {
            assert(s.take(k + 1).drop_first() =~= t.take(k));
            lemma_byte_len_first(s.take(k + 1));
        }
    }
}

proof fn lemma_byte_len_take(s: Seq<char>, k: int)
    requires
        0 <= k <= s.len(),
    ensures
        byte_len(s.take(k)) <= byte_len(s),
        k < s.len() ==> byte_len(s.take(k + 1)) == byte_len(s.take(k)) + char_width(s[k]),
    decreases s.len(),
{
    if s.len() == 0 {
        assert(s.take(0) =~= s);
    } else if k == 0 {
        assert(s.take(0) =~= Seq::empty());
        assert(s.take(1) =~= seq![s[0]]);
    } else {
        let t = s.drop_first();
        lemma_byte_len_take(t, k - 1);
        lemma_byte_len_first(s);
        assert(s.take(k).drop_first() =~= t.take(k - 1));
        lemma_byte_len_first(s.take(k));
        if k < s.len() {
            assert(s.take(k + 1).drop_first() =~= t.take(k));
            lemma_byte_len_first(s.take(k + 1));
        }
    }
}

/// A text fits whole exactly where its byte length is at most `max`.
pub proof fn lemma_fitting_whole(s: Seq<char>, max: int)
    requires
        max >= 0,
    ensures
        fitting(s, max) == s.len() <==> byte_len(s) <= max,
{
    lemma_fitting(s, max);
    assert(s.take(s.len() as int) =~= s);
    if fitting(s, max) < s.len() {
        lemma_byte_len_take(s, fitting(s, max) as int + 1);
    }
}

fn width_of(c: char) -> (r: usize)
    ensures
        r == char_width(c),
{
    proof {
        lemma_char_width(c);
        vstd::utf8::char_is_scalar(c);
    }
    let u: u32 = c as u32;
    if u <= 0x7f {
        1
    } else if u <= 0x7ff {
        2
    } else if u <= 0xffff {
        3
    } else {
        4
    }
}

/// The number of bytes of the UTF-8 encoding of `s`.
pub fn byte_count(s: &str) -> (r: u128)
    ensures
        r == byte_len(s@),
        r <= 4 * usize::MAX,
{
    let chars: Vec<char> = chars_of(s);
    let mut r: u128 = 0;
    let mut k: usize = 0;
    assert(s@.take(0) =~= Seq::empty());
    while k < chars.len()
        invariant
            k <= chars@.len(),
            chars@ == s@,
            r == byte_len(s@.take(k as int)),
            r <= 4 * k,
        decreases chars@.len() - k,
    {
        let w: usize = width_of(chars[k]);
        proof {
            lemma_char_width(s@[k as int]);
            lemma_byte_len_take(s@, k as int);
        }
        r = r + w as u128;
        k = k + 1;
    }
    assert(s@.take(s@.len() as int) =~= s@);
    r
}

/// The longest prefix of `s` that takes at most `max` bytes.
pub fn cut_to_bytes(s: &str, max: usize) -> (r: String)
    ensures
        r@ == s@.take(fitting(s@, max as int) as int),
{
    let chars: Vec<char> = chars_of(s);
    let n: usize = chars.len();
    let mut k: usize = 0;
    let mut room: usize = max;
    assert(s@.subrange(0, n as int) =~= s@);
    while k < n
        invariant_except_break
            0 <= k <= n == chars@.len(),
            chars@ == s@,
            fitting(s@, max as int) == k + fitting(s@.subrange(k as int, n as int), room as int),
        ensures
            k <= n == chars@.len(),
            chars@ == s@,
            fitting(s@, max as int) == k,
        decreases n - k,
    {
        let w: usize = width_of(chars[k]);
        let ghost rest = s@.subrange(k as int, n as int);
        if w > room {
            assert(fitting(rest, room as int) == 0);
            break ;
        }
        assert(rest.drop_first() =~= s@.subrange(k + 1, n as int));
        room = room - w;
        k = k + 1;
    }
    assert(s@.subrange(0, k as int) =~= s@.take(k as int));
    string_of(&chars, 0, k)
}

/// `s` cut to at most `max` bytes on a character boundary, the cut being marked.
pub fn truncate(s: &str, max: usize) -> (r: String)
    ensures
        r@ == truncated(s@, max as int),
{
    let mut r: String = cut_to_bytes(s, max);
    proof {
        lemma_fitting(s@, max as int);
        lemma_fitting_whole(s@, max as int);
    }
    if r.as_str().unicode_len() < s.unicode_len() {
        r.append("\n… (truncated)");
    } else {
        assert(r@ =~= s@);
    }
    r
}

/// A cut text is a prefix of the text, of at most `max` bytes, followed by the mark;
/// a text that is not cut is returned as it is.
pub proof fn law_truncated_fits(s: Seq<char>, max: int)
    requires
        max >= 0,
    ensures
        byte_len(s) <= max ==> truncated(s, max) == s,
        byte_len(s) > max ==> {
            let k = fitting(s, max) as int;
            &&& 0 <= k < s.len()
            &&& truncated(s, max) == s.take(k) + cut_mark()
            &&& byte_len(s.take(k)) <= max < byte_len(s.take(k + 1))
        },
{
    lemma_fitting(s, max);
    lemma_fitting_whole(s, max);
}

/// Trimming takes the white space off the two ends, all of it, and nothing else:
/// text that neither starts nor ends with white space is what is left of it
/// with any white space around it.
pub proof fn law_trimming_takes_the_white_ends(a: Seq<char>, text: Seq<char>, b: Seq<char>)
    requires
        forall|i: int| 0 <= i < a.len() ==> is_white(#[trigger] a[i]),
        forall|i: int| 0 <= i < b.len() ==> is_white(#[trigger] b[i]),
        text.len() > 0 ==> !is_white(text[0]) && !is_white(text.last()),
    ensures
        trimmed(a + text + b) == text,
{
    let s = a + text + b;
    let p = |c: char| is_white(c);
    assert forall|k: int| 0 <= k < a.len() implies p(#[trigger] s[k]) by {
        assert(s[k] == a[k]);
    }
    assert forall|k: int| a.len() + text.len() <= k < s.len() implies p(#[trigger] s[k]) by {
        assert(s[k] == b[k - a.len() - text.len()]);
    }
    if text.len() == 0 {
        assert forall|k: int| 0 <= k < s.len() implies p(#[trigger] s[k]) by {}
        lemma_trim_between(s, p, s.len() as int, s.len() as int);
    } else {
        assert(s[a.len() as int] == text[0]);
        assert(s[a.len() + text.len() - 1] == text.last());
        lemma_trim_between(s, p, a.len() as int, (a.len() + text.len()) as int);
    }
    assert(trimmed(s) =~= text);
}

/// The white space that trimming takes off.
pub proof fn lemma_trimmed_parts(s: Seq<char>) -> (ends: (Seq<char>, Seq<char>))
    ensures
        s == ends.0 + trimmed(s) + ends.1,
        is_blank(ends.0),
        is_blank(ends.1),
{
    let p = |c: char| is_white(c);
    let t = skip_while(s, p);
    let r = drop_while_last(t, p);
    lemma_skip_while_is_suffix(s, p);
    lemma_drop_while_last_is_prefix(t, p);
    lemma_skipped_are(s, p);
    lemma_dropped_are(t, p);
    let a = s.take(s.len() - t.len());
    let b = t.skip(r.len() as int);
    assert(s =~= a + r + b);
    (a, b)
}

proof fn lemma_skipped_are(s: Seq<char>, p: spec_fn(char) -> bool)
    ensures
        forall|i: int| 0 <= i < s.len() - skip_while(s, p).len() ==> p(#[trigger] s[i]),
    decreases s.len(),
{
    if s.len() > 0 && p(s[0]) {
        let t = s.drop_first();
        lemma_skipped_are(t, p);
        assert forall|i: int| 0 <= i < s.len() - skip_while(s, p).len() implies p(
            #[trigger] s[i],
        ) by {
            if i > 0 {
                assert(t[i - 1] == s[i]);
            }
        }
    }
}

proof fn lemma_dropped_are(s: Seq<char>, p: spec_fn(char) -> bool)
    ensures
        forall|i: int| drop_while_last(s, p).len() <= i < s.len() ==> p(#[trigger] s[i]),
    decreases s.len(),
{
    if s.len() > 0 && p(s.last()) {
        let t = s.drop_last();
        lemma_dropped_are(t, p);
        assert forall|i: int| drop_while_last(s, p).len() <= i < s.len() implies p(
            #[trigger] s[i],
        ) by {
            if i < t.len() {
                assert(t[i] == s[i]);
            }
        }
    }
}

/// Trimming the end takes the white space off it, all of it, and nothing else.
pub proof fn law_trimming_takes_the_white_end(text: Seq<char>, b: Seq<char>)
    requires
        forall|i: int| 0 <= i < b.len() ==> is_white(#[trigger] b[i]),
        text.len() > 0 ==> !is_white(text.last()),
    ensures
        trimmed_end(text + b) == text,
{
    let s = text + b;
    let p = |c: char| is_white(c);
    assert forall|k: int| text.len() <= k < s.len() implies p(#[trigger] s[k]) by {
        assert(s[k] == b[k - text.len()]);
    }
    lemma_drop_while_last(s, p, text.len() as int);
    assert(trimmed_end(s) =~= text);
}

/// Trimming a character takes every occurrence of it off the two ends, and
/// nothing else.
pub proof fn law_trimming_takes_the_character(
    a: Seq<char>,
    text: Seq<char>,
    b: Seq<char>,
    q: char,
)
    requires
        forall|i: int| 0 <= i < a.len() ==> #[trigger] a[i] == q,
        forall|i: int| 0 <= i < b.len() ==> #[trigger] b[i] == q,
        text.len() > 0 ==> text[0] != q && text.last() != q,
    ensures
        trimmed_of(a + text + b, q) == text,
{
    let s = a + text + b;
    let p = char_is(q);
    assert forall|k: int| 0 <= k < a.len() implies p(#[trigger] s[k]) by {
        assert(s[k] == a[k]);
    }
    assert forall|k: int| a.len() + text.len() <= k < s.len() implies p(#[trigger] s[k]) by {
        assert(s[k] == b[k - a.len() - text.len()]);
    }
    if text.len() == 0 {
        assert forall|k: int| 0 <= k < s.len() implies p(#[trigger] s[k]) by {}
        lemma_trim_between(s, p, s.len() as int, s.len() as int);
    } else {
        assert(s[a.len() as int] == text[0]);
        assert(s[a.len() + text.len() - 1] == text.last());
        lemma_trim_between(s, p, a.len() as int, (a.len() + text.len()) as int);
    }
    assert(trimmed_of(s, q) =~= text);
}

/// Optional text is kept as it is unless there is nothing in it but white space.
pub proof fn law_text_is_kept_unless_blank(s: Seq<char>)
    ensures
        unless_blank_chars(None) is None,
        trimmed(s).len() == 0 ==> unless_blank_chars(Some(s)) is None,
        trimmed(s).len() > 0 ==> unless_blank_chars(Some(s)) == Some(s),
{
    lemma_blank_trimmed(s);
}

/// Stripping a prefix gives back what stands behind it, and only where the text
/// starts with it.
pub proof fn law_stripping_undoes_prefixing(prefix: Seq<char>, rest: Seq<char>, s: Seq<char>)
    ensures
        prefix_stripped(prefix + rest, prefix) == Some(rest),
        prefix_stripped(s, prefix) is Some ==> s == prefix + prefix_stripped(s, prefix)->0,
{
    assert((prefix + rest).take(prefix.len() as int) =~= prefix);
    assert((prefix + rest).subrange(prefix.len() as int, (prefix + rest).len() as int) =~= rest);
    if prefix.is_prefix_of(s) {
        assert(s =~= prefix + s.subrange(prefix.len() as int, s.len() as int));
    }
}

proof fn lemma_word_ends(s: Seq<char>)
    ensures
        word_len(s) <= s.len(),
        forall|k: int| 0 <= k < word_len(s) ==> !is_white(#[trigger] s[k]),
        word_len(s) < s.len() ==> is_white(s[word_len(s) as int]),
    decreases s.len(),
{
    if s.len() > 0 && !is_white(s[0]) {
        let t = s.drop_first();
        lemma_word_ends(t);
        assert forall|k: int| 0 <= k < word_len(s) implies !is_white(#[trigger] s[k]) by {
            if k > 0 {
                assert(t[k - 1] == s[k]);
            }
        }
    }
}

proof fn lemma_words_behind_white(s: Seq<char>)
    requires
        s.len() > 0,
        is_white(s[0]),
    ensures
        words(s) == words(s.drop_first()),
{
}

/// The first word, and the words of the rest.
proof fn lemma_words_first(s: Seq<char>)
    requires
        s.len() > 0,
        !is_white(s[0]),
    ensures
        0 < word_len(s) <= s.len(),
        words(s) == seq![s.take(word_len(s) as int)] + words(s.skip(word_len(s) as int)),
{
    lemma_word_ends(s);
    assert(s.subrange(0, word_len(s) as int) =~= s.take(word_len(s) as int));
    assert(s.subrange(word_len(s) as int, s.len() as int) =~= s.skip(word_len(s) as int));
}

/// White space parts words: the words of two texts with white space between them
/// are those of the one and then those of the other.
pub proof fn law_white_space_parts_words(a: Seq<char>, c: char, b: Seq<char>)
    requires
        is_white(c),
    ensures
        words(a + seq![c] + b) == words(a) + words(b),
    decreases a.len(),
{
    let s = a + seq![c] + b;
    if a.len() == 0 {
        lemma_words_behind_white(s);
        assert(s.drop_first() =~= b);
        assert(words(a) + words(b) =~= words(b));
    } else if is_white(a[0]) {
        lemma_words_behind_white(s);
        lemma_words_behind_white(a);
        assert(s.drop_first() =~= a.drop_first() + seq![c] + b);
        law_white_space_parts_words(a.drop_first(), c, b);
    } else {
        let n = word_len(a) as int;
        lemma_word_ends(a);
        assert forall|k: int| 0 <= k < n implies !is_white(#[trigger] s[k]) by {
            assert(s[k] == a[k]);
        }
        lemma_word_len(s, n);
        lemma_words_first(a);
        lemma_words_first(s);
        let rest = a.skip(n);
        law_white_space_parts_words(rest, c, b);
        assert(s.take(n) =~= a.take(n));
        assert(s.skip(n) =~= rest + seq![c] + b);
        assert(seq![a.take(n)] + (words(rest) + words(b)) =~= seq![a.take(n)] + words(rest)
            + words(b));
    }
}

/// A text without white space is one word; blank text has none.
pub proof fn law_words_have_no_white_space(s: Seq<char>)
    ensures
        (forall|i: int| 0 <= i < s.len() ==> is_white(#[trigger] s[i])) ==> words(s).len() == 0,
        s.len() > 0 && (forall|i: int| 0 <= i < s.len() ==> !is_white(#[trigger] s[i])) ==> words(s)
            == seq![s],
    decreases s.len(),
{
    if s.len() > 0 && is_white(s[0]) {
        let t = s.drop_first();
        assert(words(s) == words(t)) by {
            lemma_words_behind_white(s);
        }
        law_words_have_no_white_space(t);
        if forall|i: int| 0 <= i < s.len() ==> is_white(#[trigger] s[i]) {
            assert forall|i: int| 0 <= i < t.len() implies is_white(#[trigger] t[i]) by {
                assert(t[i] == s[i + 1]);
            }
        }
    } else if s.len() > 0 {
        if forall|i: int| 0 <= i < s.len() ==> !is_white(#[trigger] s[i]) {
            lemma_word_len(s, s.len() as int);
            lemma_words_first(s);
            assert(s.take(s.len() as int) =~= s);
            assert(words(s.skip(s.len() as int)) =~= Seq::empty());
            assert(words(s) =~= seq![s]);
        }
    }
}

/// White space at the ends makes no words.
pub proof fn lemma_words_trimmed(s: Seq<char>)
    ensures
        words(trimmed(s)) == words(s),
{
    let (a, b) = lemma_trimmed_parts(s);
    let t = trimmed(s);
    law_words_have_no_white_space(a);
    law_words_have_no_white_space(b);
    if a.len() > 0 {
        let c = a.last();
        assert(is_white(a[a.len() - 1]));
        assert(s =~= a.drop_last() + seq![c] + (t + b));
        law_white_space_parts_words(a.drop_last(), c, t + b);
        assert(is_blank(a.drop_last()));
        law_words_have_no_white_space(a.drop_last());
        assert(words(s) =~= words(t + b));
    } else {
        assert(s =~= t + b);
    }
    if b.len() > 0 {
        let c = b[0];
        assert(is_white(b[0]));
        assert(t + b =~= t + seq![c] + b.drop_first());
        law_white_space_parts_words(t, c, b.drop_first());
        assert(is_blank(b.drop_first()));
        law_words_have_no_white_space(b.drop_first());
        assert(words(t + b) =~= words(t));
    } else {
        assert(t + b =~= t);
    }
}

/// Joining puts the separator between two parts, and nowhere else: the parts of
/// two lists are joined as the two lists are.
pub proof fn law_joining_separates_parts(a: Seq<Seq<char>>, b: Seq<Seq<char>>, sep: Seq<char>)
    ensures
        joined(Seq::empty(), sep).len() == 0,
        a.len() == 1 ==> joined(a, sep) == a[0],
        a.len() > 0 && b.len() > 0 ==> joined(a + b, sep) == joined(a, sep) + sep + joined(b, sep),
    decreases b.len(),
{
    if a.len() > 0 && b.len() > 0 {
        let all = a + b;
        let front = b.drop_last();
        assert(all.drop_last() =~= a + front);
        assert(all.last() == b.last());
        if front.len() == 0 {
            assert(a + front =~= a);
        } else {
            law_joining_separates_parts(a, front, sep);
            assert(joined(a, sep) + sep + joined(front, sep) + sep + b.last() =~= joined(a, sep)
                + sep + (joined(front, sep) + sep + b.last()));
        }
    }
}

/// The first line ends before the first line feed, and has no carriage return
/// that stands there; text without a line feed is one line.
pub proof fn law_first_line_ends_at_the_line_feed(line: Seq<char>, rest: Seq<char>)
    requires
        forall|i: int| 0 <= i < line.len() ==> #[trigger] line[i] != '\n',
    ensures
        line_first(line) == line,
        line.len() == 0 || line.last() != '\r' ==> line_first(line + seq!['\n'] + rest) == line,
        line_first(line + seq!['\r', '\n'] + rest) == line,
{
    lemma_find_char(line, '\n', line.len() as int);
    assert(line_first(line) =~= line);
    let s = line + seq!['\n'] + rest;
    assert forall|k: int| 0 <= k < line.len() implies #[trigger] s[k] != '\n' by {
        assert(s[k] == line[k]);
    }
    lemma_find_char(s, '\n', line.len() as int);
    if line.len() == 0 || line.last() != '\r' {
        assert(line_first(s) =~= line);
    }
    let t = line + seq!['\r', '\n'] + rest;
    assert forall|k: int| 0 <= k < line.len() + 1 implies #[trigger] t[k] != '\n' by {
        if k < line.len() {
            assert(t[k] == line[k]);
        }
    }
    lemma_find_char(t, '\n', (line.len() + 1) as int);
    assert(line_first(t) =~= line);
}

/// A text occurs in another exactly where that one is it with something, or
/// nothing, around it.
pub proof fn law_occurring_is_standing_within(
    before: Seq<char>,
    needle: Seq<char>,
    after: Seq<char>,
    s: Seq<char>,
)
    ensures
        occurs_in(needle, before + needle + after),
        occurs_in(needle, s) ==> exists|a: Seq<char>, b: Seq<char>|
            s == #[trigger] (a + needle + b),
{
    let whole = before + needle + after;
    let i = before.len() as int;
    assert(whole.subrange(i, i + needle.len()) =~= needle);
    assert(occurs_at(needle, whole, i));
    if occurs_in(needle, s) {
        let i = choose|i: int| #[trigger] occurs_at(needle, s, i);
        assert(s =~= s.take(i) + needle + s.skip(i + needle.len()));
    }
}

/// The first characters are a start of the text, and the last ones an end of
/// it: all of it where it is no longer than they may be, else just as long.
pub proof fn law_a_part_is_as_long_as_it_may_be(s: Seq<char>, max: int)
    requires
        max >= 0,
    ensures
        s.len() <= max ==> first_chars(s, max) == s && last_chars(s, max) == s,
        s.len() > max ==> first_chars(s, max).len() == max && last_chars(s, max).len() == max,
        first_chars(s, max).is_prefix_of(s),
        last_chars(s, max).is_suffix_of(s),
{
    assert(s.take(s.len() as int) =~= s);
    assert(s.subrange(0, s.len() as int) =~= s);
}

/// Decimal numbers: a digit for each of the first ten, a digit more for each
/// power of ten, and a minus sign for what lies below zero.
pub proof fn law_decimal_digits(n: nat, d: nat)
    requires
        d < 10,
    ensures
        decimal(d) == seq!["0123456789"@[d as int]],
        n > 0 ==> decimal(10 * n + d) == decimal(n) + decimal(d),
        decimal_signed(n as int) == decimal(n),
        n > 0 ==> decimal_signed(-(n as int)) == seq!['-'] + decimal(n),
{
    reveal_strlit("0123456789");
    assert((10 * n + d) / 10 == n);
    assert((10 * n + d) % 10 == d);
    assert(decimal(d) =~= seq![digit(d)]);
    assert(digit(d) == "0123456789"@[d as int]);
    if n > 0 {
        assert(decimal(10 * n + d) =~= decimal(n) + decimal(d));
    }
}

/// The longest part at the start of a text that fits: it takes at most `max`
/// bytes, and with the next character it would take more.
pub proof fn law_as_much_as_fits(s: Seq<char>, max: int, k: int)
    requires
        max >= 0,
        0 <= k <= s.len(),
        encode_utf8(s.take(k)).len() <= max,
        k < s.len() ==> encode_utf8(s.take(k + 1)).len() > max,
    ensures
        s.take(fitting(s, max) as int) == s.take(k),
        k == s.len() ==> truncated(s, max) == s,
        k < s.len() ==> truncated(s, max) == s.take(k) + "\n… (truncated)"@,
{
    let n = fitting(s, max) as int;
    lemma_fitting(s, max);
    lemma_fitting_whole(s, max);
    assert(s.take(s.len() as int) =~= s);
    if n < k {
        lemma_byte_len_take(s.take(k), n + 1);
        assert(s.take(k).take(n + 1) =~= s.take(n + 1));
    } else if k < n {
        lemma_byte_len_take(s.take(n), k + 1);
        assert(s.take(n).take(k + 1) =~= s.take(k + 1));
    }
}

/// The occurrences of a character that trimming it takes off.
pub proof fn lemma_trimmed_of_parts(s: Seq<char>, q: char) -> (ends: (Seq<char>, Seq<char>))
    ensures
        s == ends.0 + trimmed_of(s, q) + ends.1,
        forall|i: int| 0 <= i < ends.0.len() ==> #[trigger] ends.0[i] == q,
        forall|i: int| 0 <= i < ends.1.len() ==> #[trigger] ends.1[i] == q,
{
    let p = char_is(q);
    let t = skip_while(s, p);
    let r = drop_while_last(t, p);
    lemma_skip_while_is_suffix(s, p);
    lemma_drop_while_last_is_prefix(t, p);
    lemma_skipped_are(s, p);
    lemma_dropped_are(t, p);
    let a = s.take(s.len() - t.len());
    let b = t.skip(r.len() as int);
    assert forall|i: int| 0 <= i < a.len() implies #[trigger] a[i] == q by {
        assert(p(s[i]));
    }
    assert forall|i: int| 0 <= i < b.len() implies #[trigger] b[i] == q by {
        assert(p(t[r.len() + i]));
    }
    assert(s =~= a + r + b);
    (a, b)
}

} // verus!
