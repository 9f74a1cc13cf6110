//! Character-level text utilities shared by the parsers of the library.
//!
//! Strings are modelled by their sequence of characters (`Seq<char>`); every
//! exec function here is proved against a spec function over that model.
use vstd::prelude::*;

verus! {

/// Appends one character to a `String` (std `String::push`).
#[verifier::external_body]
pub(crate) fn push_char(s: &mut String, c: char)
    ensures
        final(s)@ == old(s)@.push(c),
{
    s.push(c);
}

/// The lower-case form of a string under Unicode case mapping, as `str::to_lowercase`
/// computes it.
pub uninterp spec fn lowercase(s: Seq<char>) -> Seq<char>;

/// All characters of `s` are ASCII.
pub open spec fn all_ascii(s: Seq<char>) -> bool {
    forall|i: int| 0 <= i < s.len() ==> (s[i] as u32) < 128
}

/// The ASCII lower case of one character: `A` to `Z` become `a` to `z`, every other
/// character stays.
pub open spec fn ascii_lower(c: char) -> char {
    if 'A' <= c && c <= 'Z' {
        ((c as u32) + 32) as char
    } else {
        c
    }
}

/// The lower-case form of `s`: on ASCII text each letter `A` to `Z` becomes its small
/// form and every other character stays; other text goes by `lowercase`.
pub open spec fn lower_text(s: Seq<char>) -> Seq<char> {
    if all_ascii(s) {
        s.map_values(|c: char| ascii_lower(c))
    } else {
        lowercase(s)
    }
}

/// Lower-cases a string slice (std `str::to_lowercase`). Claimed: the result is
/// `lowercase` of the argument, and on ASCII text it maps each letter `A` to `Z` to
/// its small form and keeps every other character; the Unicode mapping of other
/// characters is left unstated.
#[verifier::external_body]
pub(crate) fn to_lower(s: &str) -> (r: String)
    ensures
        r@ == lowercase(s@),
        all_ascii(s@) ==> r@ == s@.map_values(|c: char| ascii_lower(c)),
{
    s.to_lowercase()
}

/// Appends the characters of `t` to `s` (as `String::push_str`).
pub fn push_chars(s: &mut String, t: &str)
    ensures
        final(s)@ == old(s)@ + t@,
{
    let v = chars_of(t);
    let mut i: usize = 0;
    while i < v.len()
        invariant
            i <= v@.len(),
            v@ == t@,
            s@ == old(s)@ + v@.take(i as int),
        decreases v.len() - i,
    {
        push_char(s, v[i]);
        assert(v@.take(i + 1) == v@.take(i as int).push(v@[i as int]));
        i = i + 1;
    }
    assert(v@.take(v@.len() as int) == v@);
}

/// The characters of a string slice, in order.
pub fn chars_of(s: &str) -> (v: Vec<char>)
    ensures
        v@ == s@,
{
    let mut v: Vec<char> = Vec::new();
    for c in it: s.chars()
        invariant
            v@ == it.seq().take(it.index()),
    {
        v.push(c);
    }
    v
}

/// A `String` holding the characters `v[lo..hi]`.
pub fn string_of(v: &[char], lo: usize, hi: usize) -> (s: String)
    requires
        lo <= hi <= v@.len(),
    ensures
        s@ == v@.subrange(lo as int, hi as int),
{
    let mut s = String::new();
    let mut i = lo;
    while i < hi
        invariant
            lo <= i <= hi <= v@.len(),
            s@ == v@.subrange(lo as int, i as int),
        decreases hi - i,
    {
        push_char(&mut s, v[i]);
        assert(v@.subrange(lo as int, i + 1) == v@.subrange(lo as int, i as int).push(v@[i as int]));
        i = i + 1;
    }
    s
}

/// A `String` holding all characters of `v`.
pub fn string_of_all(v: &[char]) -> (s: String)
    ensures
        s@ == v@,
{
    let s = string_of(v, 0, v.len());
    assert(v@.subrange(0, v@.len() as int) == v@);
    s
}

/// Unicode `White_Space`, the property behind `char::is_whitespace`.
pub open spec fn is_ws(c: char) -> bool {
    ||| ('\u{9}' <= c && c <= '\u{d}')
    ||| c == ' '
    ||| c == '\u{85}'
    ||| c == '\u{a0}'
    ||| c == '\u{1680}'
    ||| ('\u{2000}' <= c && c <= '\u{200a}')
    ||| c == '\u{2028}'
    ||| c == '\u{2029}'
    ||| c == '\u{202f}'
    ||| c == '\u{205f}'
    ||| c == '\u{3000}'
}

/// Whether a character is white space (as `char::is_whitespace`).
pub fn is_whitespace(c: char) -> (b: bool)
    ensures
        b == is_ws(c),
{
    ('\u{9}' <= c && c <= '\u{d}') || c == ' ' || c == '\u{85}' || c == '\u{a0}'
        || c == '\u{1680}' || ('\u{2000}' <= c && c <= '\u{200a}') || c == '\u{2028}'
        || c == '\u{2029}' || c == '\u{202f}' || c == '\u{205f}' || c == '\u{3000}'
}

/// No character of `s` is white space.
pub open spec fn no_ws(s: Seq<char>) -> bool {
    forall|i: int| 0 <= i < s.len() ==> !is_ws(#[trigger] s[i])
}

/// Length of the run of non-white-space characters that starts `s`.
pub open spec fn token_len(s: Seq<char>) -> nat
    decreases s.len(),
{
    if s.len() == 0 || is_ws(s[0]) {
        0
    } else {
        1 + token_len(s.drop_first())
    }
}

/// The white-space separated words of `s`, as `str::split_whitespace` yields them.
pub open spec fn words(s: Seq<char>) -> Seq<Seq<char>>
    decreases s.len(),
{
    if s.len() == 0 {
        seq![]
    } else if is_ws(s[0]) {
        words(s.drop_first())
    } else {
        let n = token_len(s);
        proof {
            lemma_token_len_bound(s);
        }
        seq![s.take(n as int)] + words(s.skip(n as int))
    }
}

pub proof fn lemma_token_len_bound(s: Seq<char>)
    ensures
        token_len(s) <= s.len(),
    decreases s.len(),
{
    if s.len() > 0 && !is_ws(s[0]) {
        lemma_token_len_bound(s.drop_first());
    }
}

proof fn lemma_token_len_concat(x: Seq<char>, rest: Seq<char>)
    requires
        no_ws(x),
    ensures
        token_len(x + rest) == x.len() + token_len(rest),
    decreases x.len(),
{
    if x.len() == 0 {
        assert(x + rest == rest);
    } else {
        assert((x + rest)[0] == x[0]);
        assert((x + rest).drop_first() == x.drop_first() + rest);
        assert(no_ws(x.drop_first())) by {
            assert forall|i: int| 0 <= i < x.drop_first().len() implies !is_ws(
                #[trigger] x.drop_first()[i],
            ) by {
                assert(x.drop_first()[i] == x[i + 1]);
            }
        }
        lemma_token_len_concat(x.drop_first(), rest);
    }
}

/// A word followed by white space splits off as the first word.
proof fn lemma_words_word_then_ws(x: Seq<char>, rest: Seq<char>)
    requires
        no_ws(x),
        x.len() > 0,
        rest.len() > 0,
        is_ws(rest[0]),
    ensures
        words(x + rest) == seq![x] + words(rest.drop_first()),
{
    let s = x + rest;
    assert(s[0] == x[0]);
    lemma_token_len_concat(x, rest);
    assert(token_len(rest) == 0);
    assert(s.take(x.len() as int) == x);
    assert(s.skip(x.len() as int) == rest);
    assert(words(rest) == words(rest.drop_first()));
}

/// A final word with nothing after it.
proof fn lemma_words_last_word(x: Seq<char>)
    requires
        no_ws(x),
        x.len() > 0,
    ensures
        words(x) == seq![x],
{
    lemma_token_len_concat(x, Seq::<char>::empty());
    assert(x + Seq::<char>::empty() == x);
    assert(x.take(x.len() as int) == x);
    assert(x.skip(x.len() as int) == Seq::<char>::empty());
    assert(words(Seq::<char>::empty()) == Seq::<Seq<char>>::empty());
}

/// The character sequences held by a sequence of character vectors.
pub open spec fn views_of(r: Seq<Vec<char>>) -> Seq<Seq<char>> {
    Seq::new(r.len(), |i: int| r[i]@)
}

proof fn lemma_views_of_push(r: Seq<Vec<char>>, x: Vec<char>)
    ensures
        views_of(r.push(x)) == views_of(r).push(x@),
{
    assert(views_of(r.push(x)) =~= views_of(r).push(x@));
}

/// The white-space separated words of `v` (as `str::split_whitespace`).
pub fn split_words(v: &[char]) -> (r: Vec<Vec<char>>)
    ensures
        views_of(r@) == words(v@),
{
    let mut r: Vec<Vec<char>> = Vec::new();
    let mut cur: Vec<char> = Vec::new();
    let mut i: usize = 0;
    assert(cur@ + v@.skip(0) == v@);
    assert(views_of(r@) + words(v@) == words(v@));
    while i < v.len()
        invariant
            i <= v@.len(),
            no_ws(cur@),
            views_of(r@) + words(cur@ + v@.skip(i as int)) == words(v@),
        decreases v.len() - i,
    {
        let c = v[i];
        let ghost rest = v@.skip(i as int);
        assert(rest[0] == c);
        assert(rest.drop_first() == v@.skip(i + 1));
        if is_whitespace(c) {
            if cur.len() > 0 {
                proof {
                    lemma_words_word_then_ws(cur@, rest);
                }
                let ghost old_r = views_of(r@);
                proof {
                    lemma_views_of_push(r@, cur);
                }
                r.push(cur);
                assert(old_r + (seq![cur@] + words(v@.skip(i + 1))) == old_r.push(cur@) + words(
                    v@.skip(i + 1),
                ));
                cur = Vec::new();
                assert(cur@ + v@.skip(i + 1) == v@.skip(i + 1));
            } else {
                assert(cur@ + rest == rest);
                assert(cur@ + v@.skip(i + 1) == v@.skip(i + 1));
            }
        } else {
            let ghost old_cur = cur@;
            cur.push(c);
            assert(old_cur + rest == cur@ + v@.skip(i + 1));
            assert(no_ws(cur@)) by {
                assert forall|j: int| 0 <= j < cur@.len() implies !is_ws(#[trigger] cur@[j]) by {
                    if j < old_cur.len() {
                        assert(cur@[j] == old_cur[j]);
                    }
                }
            }
        }
        i = i + 1;
    }
    assert(v@.skip(i as int) == Seq::<char>::empty());
    assert(cur@ + v@.skip(i as int) == cur@);
    if cur.len() > 0 {
        proof {
            lemma_words_last_word(cur@);
        }
        let ghost old_r = views_of(r@);
        proof {
            lemma_views_of_push(r@, cur);
        }
        r.push(cur);
        assert(old_r + seq![cur@] == old_r.push(cur@));
    } else {
        assert(words(cur@) == Seq::<Seq<char>>::empty());
        assert(views_of(r@) + Seq::<Seq<char>>::empty() == views_of(r@));
    }
    r
}


/// Position of the first `c` in `s`, or `s.len()` when there is none.
pub open spec fn pos_of(s: Seq<char>, c: char) -> nat
    decreases s.len(),
{
    if s.len() == 0 {
        0
    } else if s[0] == c {
        0
    } else {
        1 + pos_of(s.drop_first(), c)
    }
}

pub proof fn lemma_pos_of_bound(s: Seq<char>, c: char)
    ensures
        pos_of(s, c) <= s.len(),
        pos_of(s, c) < s.len() ==> s[pos_of(s, c) as int] == c,
        forall|i: int| 0 <= i < pos_of(s, c) ==> s[i] != c,
    decreases s.len(),
{
    if s.len() > 0 && s[0] != c {
        lemma_pos_of_bound(s.drop_first(), c);
        assert forall|i: int| 0 <= i < pos_of(s, c) implies s[i] != c by {
            if i > 0 {
                assert(s[i] == s.drop_first()[i - 1]);
            }
        }
    }
}

/// The pieces of `s` between occurrences of `c` (as `str::split` with a char).
pub open spec fn pieces(s: Seq<char>, c: char) -> Seq<Seq<char>>
    decreases s.len(),
{
    let k = pos_of(s, c);
    proof {
        lemma_pos_of_bound(s, c);
    }
    if k >= s.len() {
        seq![s]
    } else {
        seq![s.take(k as int)] + pieces(s.skip(k as int + 1), c)
    }
}

proof fn lemma_pos_of_concat(x: Seq<char>, rest: Seq<char>, c: char)
    requires
        !x.contains(c),
    ensures
        pos_of(x + rest, c) == x.len() + pos_of(rest, c),
    decreases x.len(),
{
    if x.len() == 0 {
        assert(x + rest == rest);
    } else {
        assert((x + rest)[0] == x[0]);
        assert((x + rest).drop_first() == x.drop_first() + rest);
        assert(!x.drop_first().contains(c)) by {
            if x.drop_first().contains(c) {
                let j = choose|j: int| 0 <= j < x.drop_first().len() && x.drop_first()[j] == c;
                assert(x[j + 1] == c);
            }
        }
        assert(x[0] != c);
        lemma_pos_of_concat(x.drop_first(), rest, c);
    }
}

proof fn lemma_pieces_then_sep(x: Seq<char>, rest: Seq<char>, c: char)
    requires
        !x.contains(c),
        rest.len() > 0,
        rest[0] == c,
    ensures
        pieces(x + rest, c) == seq![x] + pieces(rest.drop_first(), c),
{
    let s = x + rest;
    lemma_pos_of_concat(x, rest, c);
    assert(pos_of(rest, c) == 0);
    assert(s.take(x.len() as int) == x);
    assert(s.skip(x.len() as int + 1) == rest.drop_first());
}

proof fn lemma_pieces_last(x: Seq<char>, c: char)
    requires
        !x.contains(c),
    ensures
        pieces(x, c) == seq![x],
{
    lemma_pos_of_concat(x, Seq::<char>::empty(), c);
    assert(x + Seq::<char>::empty() == x);
}

/// The pieces of `v` between occurrences of `c` (as `str::split` with a char).
pub fn split_char(v: &[char], c: char) -> (r: Vec<Vec<char>>)
    ensures
        views_of(r@) == pieces(v@, c),
        r@.len() >= 1,
{
    let mut r: Vec<Vec<char>> = Vec::new();
    let mut cur: Vec<char> = Vec::new();
    let mut i: usize = 0;
    assert(cur@ + v@.skip(0) == v@);
    assert(views_of(r@) + pieces(v@, c) == pieces(v@, c));
    while i < v.len()
        invariant
            i <= v@.len(),
            !cur@.contains(c),
            views_of(r@) + pieces(cur@ + v@.skip(i as int), c) == pieces(v@, c),
        decreases v.len() - i,
    {
        let d = v[i];
        let ghost rest = v@.skip(i as int);
        assert(rest[0] == d);
        assert(rest.drop_first() == v@.skip(i + 1));
        if d == c {
            proof {
                lemma_pieces_then_sep(cur@, rest, c);
                lemma_views_of_push(r@, cur);
            }
            let ghost old_r = views_of(r@);
            r.push(cur);
            assert(old_r + (seq![cur@] + pieces(v@.skip(i + 1), c)) == old_r.push(cur@) + pieces(
                v@.skip(i + 1),
                c,
            ));
            cur = Vec::new();
            assert(cur@ + v@.skip(i + 1) == v@.skip(i + 1));
        } else {
            let ghost old_cur = cur@;
            cur.push(d);
            assert(old_cur + rest == cur@ + v@.skip(i + 1));
            assert(!cur@.contains(c)) by {
                if cur@.contains(c) {
                    let j = choose|j: int| 0 <= j < cur@.len() && cur@[j] == c;
                    if j < old_cur.len() {
                        assert(old_cur[j] == c);
                    }
                }
            }
        }
        i = i + 1;
    }
    assert(v@.skip(i as int) == Seq::<char>::empty());
    assert(cur@ + v@.skip(i as int) == cur@);
    proof {
        lemma_pieces_last(cur@, c);
        lemma_views_of_push(r@, cur);
    }
    let ghost old_r = views_of(r@);
    r.push(cur);
    assert(old_r + seq![cur@] == old_r.push(cur@));
    r
}

/// `x` without one trailing carriage return.
pub open spec fn strip_cr(x: Seq<char>) -> Seq<char> {
    if x.len() > 0 && x.last() == '\r' {
        x.drop_last()
    } else {
        x
    }
}

/// The lines of `s`, as `str::lines` yields them: split at `\n`, a `\r`
/// before each `\n` removed, and no empty line after a final `\n`.
pub open spec fn lines(s: Seq<char>) -> Seq<Seq<char>> {
    let p = pieces(s, '\n');
    let k = if p.last().len() == 0 { p.len() - 1 } else { p.len() as int };
    Seq::new(k as nat, |i: int| if i < p.len() - 1 { strip_cr(p[i]) } else { p[i] })
}

proof fn lemma_pieces_nonempty(s: Seq<char>, c: char)
    ensures
        pieces(s, c).len() >= 1,
    decreases s.len(),
{
    lemma_pos_of_bound(s, c);
    if pos_of(s, c) < s.len() {
        lemma_pieces_nonempty(s.skip(pos_of(s, c) as int + 1), c);
    }
}

/// The lines of `v` (as `str::lines`).
pub fn split_lines(v: &[char]) -> (r: Vec<Vec<char>>)
    ensures
        views_of(r@) == lines(v@),
{
    let ps = split_char(v, '\n');
    proof {
        lemma_pieces_nonempty(v@, '\n');
    }
    let n = ps.len();
    let k = if ps[n - 1].len() == 0 { n - 1 } else { n };
    let mut r: Vec<Vec<char>> = Vec::new();
    let mut i: usize = 0;
    while i < k
        invariant
            k <= n == ps@.len(),
            n >= 1,
            views_of(ps@) == pieces(v@, '\n'),
            k == (if ps@[n - 1]@.len() == 0 { n - 1 } else { n as int }),
            i <= k,
            r@.len() == i,
            forall|j: int|
                0 <= j < i ==> #[trigger] r@[j]@ == (if j < n - 1 {
                    strip_cr(ps@[j]@)
                } else {
                    ps@[j]@
                }),
        decreases k - i,
    {
        let mut line = ps[i].clone();
        let ghost orig = ps@[i as int]@;
        assert(views_of(ps@)[i as int] == ps@[i as int]@);
        if i < n - 1 && line.len() > 0 && line[line.len() - 1] == '\r' {
            line.pop();
            assert(line@ == orig.drop_last());
        }
        r.push(line);
        i = i + 1;
    }
    assert(views_of(r@) =~= lines(v@)) by {
        assert forall|j: int| 0 <= j < r@.len() implies views_of(r@)[j] == lines(v@)[j] by {
            assert(views_of(ps@)[j] == ps@[j]@);
        }
    }
    r
}


/// Number of white-space characters that start `s`.
pub open spec fn lead_ws(s: Seq<char>) -> nat
    decreases s.len(),
{
    if s.len() == 0 || !is_ws(s[0]) {
        0
    } else {
        1 + lead_ws(s.drop_first())
    }
}

/// Number of white-space characters that end `s`.
pub open spec fn trail_ws(s: Seq<char>) -> nat
    decreases s.len(),
{
    if s.len() == 0 || !is_ws(s.last()) {
        0
    } else {
        1 + trail_ws(s.drop_last())
    }
}

/// `s` without leading and trailing white space (as `str::trim`).
pub open spec fn trim(s: Seq<char>) -> Seq<char> {
    let t = s.skip(lead_ws(s) as int);
    t.take(t.len() - trail_ws(t))
}

proof fn lemma_lead_ws_step(s: Seq<char>, i: int)
    requires
        0 <= i <= s.len(),
        forall|j: int| 0 <= j < i ==> is_ws(#[trigger] s[j]),
    ensures
        lead_ws(s) == i + lead_ws(s.skip(i)),
    decreases i,
{
    if i > 0 {
        assert(is_ws(s[0]));
        assert forall|j: int| 0 <= j < i - 1 implies is_ws(#[trigger] s.drop_first()[j]) by {
            assert(s.drop_first()[j] == s[j + 1]);
        }
        lemma_lead_ws_step(s.drop_first(), i - 1);
        assert(s.drop_first().skip(i - 1) == s.skip(i));
    } else {
        assert(s.skip(0) == s);
    }
}

proof fn lemma_trail_ws_step(s: Seq<char>, k: int)
    requires
        0 <= k <= s.len(),
        forall|j: int| s.len() - k <= j < s.len() ==> is_ws(#[trigger] s[j]),
    ensures
        trail_ws(s) == k + trail_ws(s.take(s.len() - k)),
    decreases k,
{
    if k > 0 {
        assert(is_ws(s[s.len() - 1]));
        assert forall|j: int| s.drop_last().len() - (k - 1) <= j < s.drop_last().len() implies is_ws(
            #[trigger] s.drop_last()[j],
        ) by {
            assert(s.drop_last()[j] == s[j]);
        }
        lemma_trail_ws_step(s.drop_last(), k - 1);
        assert(s.drop_last().take(s.drop_last().len() - (k - 1)) == s.take(s.len() - k));
    } else {
        assert(s.take(s.len() as int) == s);
    }
}

/// `v` without leading and trailing white space (as `str::trim`).
pub fn trim_chars(v: &[char]) -> (r: Vec<char>)
    ensures
        r@ == trim(v@),
{
    let n = v.len();
    let mut lo: usize = 0;
    while lo < n && is_whitespace(v[lo])
        invariant
            lo <= n == v@.len(),
            forall|j: int| 0 <= j < lo ==> is_ws(#[trigger] v@[j]),
        decreases n - lo,
    {
        lo = lo + 1;
    }
    proof {
        lemma_lead_ws_step(v@, lo as int);
        if lo < n {
            assert(!is_ws(v@.skip(lo as int)[0]));
        }
        assert(lead_ws(v@.skip(lo as int)) == 0);
    }
    let ghost t = v@.skip(lo as int);
    let mut hi: usize = n;
    while hi > lo && is_whitespace(v[hi - 1])
        invariant
            lo <= hi <= n == v@.len(),
            t == v@.skip(lo as int),
            forall|j: int| hi <= j < n ==> is_ws(#[trigger] v@[j]),
        decreases hi - lo,
    {
        hi = hi - 1;
    }
    proof {
        let k = (n - hi) as int;
        assert forall|j: int| t.len() - k <= j < t.len() implies is_ws(#[trigger] t[j]) by {
            assert(t[j] == v@[j + lo]);
        }
        lemma_trail_ws_step(t, k);
        let u = t.take(t.len() - k);
        if u.len() > 0 {
            assert(u.last() == v@[hi - 1]);
        }
        assert(trail_ws(u) == 0);
        assert(v@.subrange(lo as int, hi as int) == u);
    }
    let mut r: Vec<char> = Vec::new();
    let mut i = lo;
    while i < hi
        invariant
            lo <= i <= hi <= v@.len(),
            r@ == v@.subrange(lo as int, i as int),
        decreases hi - i,
    {
        r.push(v[i]);
        assert(v@.subrange(lo as int, i + 1) == v@.subrange(lo as int, i as int).push(v@[i as int]));
        i = i + 1;
    }
    r
}

/// `s` begins with `p`.
pub open spec fn starts_with(s: Seq<char>, p: Seq<char>) -> bool {
    p.len() <= s.len() && s.take(p.len() as int) == p
}

/// `s` ends with `p`.
pub open spec fn ends_with(s: Seq<char>, p: Seq<char>) -> bool {
    p.len() <= s.len() && s.skip(s.len() - p.len()) == p
}

/// `p` occurs in `s` at position `i`.
pub open spec fn occurs_at(s: Seq<char>, p: Seq<char>, i: int) -> bool {
    0 <= i && i + p.len() <= s.len() && s.subrange(i, i + p.len()) == p
}

/// `p` occurs somewhere in `s` (as `str::contains` with a string pattern).
pub open spec fn contains(s: Seq<char>, p: Seq<char>) -> bool {
    exists|i: int| occurs_at(s, p, i)
}

/// Whether `p` occurs in `s` at position `i`.
pub fn matches_at(s: &[char], p: &[char], i: usize) -> (b: bool)
    ensures
        b == occurs_at(s@, p@, i as int),
{
    if i > s.len() || p.len() > s.len() - i {
        return false;
    }
    let mut j: usize = 0;
    while j < p.len()
        invariant
            i + p@.len() <= s@.len(),
            s@.len() == s.len(),
            j <= p@.len(),
            forall|k: int| 0 <= k < j ==> s@[i + k] == p@[k],
        decreases p.len() - j,
    {
        if s[i + j] != p[j] {
            assert(s@.subrange(i as int, i + p@.len())[j as int] != p@[j as int]);
            return false;
        }
        j = j + 1;
    }
    assert(s@.subrange(i as int, i + p@.len()) =~= p@);
    true
}

/// Whether `s` begins with `p` (as `str::starts_with`).
pub fn has_prefix(s: &[char], p: &[char]) -> (b: bool)
    ensures
        b == starts_with(s@, p@),
{
    let b = matches_at(s, p, 0);
    assert(s@.subrange(0, p@.len() as int) == s@.take(p@.len() as int));
    b
}

/// Whether `s` ends with `p` (as `str::ends_with`).
pub fn has_suffix(s: &[char], p: &[char]) -> (b: bool)
    ensures
        b == ends_with(s@, p@),
{
    if p.len() > s.len() {
        return false;
    }
    let b = matches_at(s, p, s.len() - p.len());
    assert(s@.subrange(s@.len() - p@.len(), s@.len() as int) == s@.skip(s@.len() - p@.len()));
    b
}

/// First position at which `p` occurs in `s`, if any (as `str::find`).
pub fn find_seq(s: &[char], p: &[char]) -> (r: Option<usize>)
    ensures
        match r {
            Some(i) => occurs_at(s@, p@, i as int) && forall|j: int|
                0 <= j < i ==> !occurs_at(s@, p@, j),
            None => !contains(s@, p@),
        },
{
    if p.len() > s.len() {
        return None;
    }
    let limit = s.len() - p.len();
    let mut i: usize = 0;
    loop
        invariant
            p@.len() <= s@.len(),
            limit == s@.len() - p@.len(),
            i <= limit,
            forall|j: int| 0 <= j < i ==> !occurs_at(s@, p@, j),
        decreases limit - i,
    {
        if matches_at(s, p, i) {
            return Some(i);
        }
        if i == limit {
            assert forall|j: int| !occurs_at(s@, p@, j) by {
                if 0 <= j && j <= i {
                }
            }
            return None;
        }
        i = i + 1;
    }
}

/// Whether `p` occurs in `s` (as `str::contains`).
pub fn has_sub(s: &[char], p: &[char]) -> (b: bool)
    ensures
        b == contains(s@, p@),
{
    match find_seq(s, p) {
        Some(i) => true,
        None => false,
    }
}

/// Whether the character sequences `a` and `b` are equal.
pub fn chars_eq(a: &[char], b: &[char]) -> (r: bool)
    ensures
        r == (a@ == b@),
{
    if a.len() != b.len() {
        return false;
    }
    let r = matches_at(a, b, 0);
    assert(a@.subrange(0, b@.len() as int) == a@);
    r
}

/// `String`s holding the character vectors of `v`, in order.
pub fn strings_of(v: &Vec<Vec<char>>) -> (r: Vec<String>)
    ensures
        str_views(r@) == views_of(v@),
{
    let mut r: Vec<String> = Vec::new();
    let mut i: usize = 0;
    while i < v.len()
        invariant
            i <= v@.len(),
            str_views(r@) == views_of(v@).take(i as int),
        decreases v.len() - i,
    {
        let s = string_of_all(v[i].as_slice());
        proof {
            lemma_str_views_push(r@, s);
        }
        r.push(s);
        assert(views_of(v@).take(i + 1) == views_of(v@).take(i as int).push(v@[i as int]@));
        i = i + 1;
    }
    assert(views_of(v@).take(i as int) == views_of(v@));
    r
}

/// Whether two string slices hold the same characters.
pub fn str_eq(a: &str, b: &str) -> (r: bool)
    ensures
        r == (a@ == b@),
{
    let x = chars_of(a);
    let y = chars_of(b);
    chars_eq(&x, &y)
}

/// The first position of `c` in `v`, if any (as `str::find` with a char).
pub fn find_char(v: &[char], c: char) -> (r: Option<usize>)
    ensures
        match r {
            Some(i) => i < v@.len() && i == pos_of(v@, c),
            None => pos_of(v@, c) == v@.len() && !v@.contains(c),
        },
{
    proof {
        lemma_pos_of_bound(v@, c);
    }
    let mut i: usize = 0;
    while i < v.len()
        invariant
            i <= v@.len(),
            forall|j: int| 0 <= j < i ==> v@[j] != c,
            pos_of(v@, c) >= i,
        decreases v.len() - i,
    {
        proof {
            lemma_pos_of_bound(v@, c);
        }
        if v[i] == c {
            return Some(i);
        }
        i = i + 1;
    }
    proof {
        lemma_pos_of_bound(v@, c);
    }
    None
}

/// The last position of `c` in `v`, if any (as `str::rfind` with a char).
pub fn rfind_char(v: &[char], c: char) -> (r: Option<usize>)
    ensures
        match r {
            Some(i) => i < v@.len() && v@[i as int] == c && forall|j: int|
                i < j < v@.len() ==> v@[j] != c,
            None => !v@.contains(c),
        },
{
    let mut i: usize = v.len();
    while i > 0
        invariant
            i <= v@.len(),
            forall|j: int| i <= j < v@.len() ==> v@[j] != c,
        decreases i,
    {
        if v[i - 1] == c {
            return Some(i - 1);
        }
        i = i - 1;
    }
    None
}

/// A copy of `v[lo..hi]`.
pub fn slice_chars(v: &[char], lo: usize, hi: usize) -> (r: Vec<char>)
    requires
        lo <= hi <= v@.len(),
    ensures
        r@ == v@.subrange(lo as int, hi as int),
{
    let mut r: Vec<char> = Vec::new();
    let mut i = lo;
    while i < hi
        invariant
            lo <= i <= hi <= v@.len(),
            r@ == v@.subrange(lo as int, i as int),
        decreases hi - i,
    {
        r.push(v[i]);
        assert(v@.subrange(lo as int, i + 1) == v@.subrange(lo as int, i as int).push(v@[i as int]));
        i = i + 1;
    }
    r
}


/// Number of bytes the UTF-8 encoding of `c` takes.
pub open spec fn utf8_width(c: char) -> nat {
    if (c as u32) < 0x80 {
        1
    } else if (c as u32) < 0x800 {
        2
    } else if (c as u32) < 0x10000 {
        3
    } else {
        4
    }
}

/// Number of bytes of the UTF-8 encoding of `s` (what `str::len` reports).
pub open spec fn utf8_len(s: Seq<char>) -> nat
    decreases s.len(),
{
    if s.len() == 0 {
        0
    } else {
        utf8_len(s.drop_last()) + utf8_width(s.last())
    }
}

/// Byte length of the UTF-8 encoding of `v`, or `None` once it exceeds `limit`.
pub fn utf8_len_upto(v: &[char], limit: usize) -> (r: Option<usize>)
    ensures
        match r {
            Some(n) => n == utf8_len(v@) && n <= limit,
            None => utf8_len(v@) > limit,
        },
{
    let mut n: usize = 0;
    let mut i: usize = 0;
    while i < v.len()
        invariant
            i <= v@.len(),
            n == utf8_len(v@.take(i as int)),
            n <= limit,
        decreases v.len() - i,
    {
        let c = v[i];
        let w: usize = if (c as u32) < 0x80 {
            1
        } else if (c as u32) < 0x800 {
            2
        } else if (c as u32) < 0x10000 {
            3
        } else {
            4
        };
        assert(v@.take(i + 1).drop_last() == v@.take(i as int));
        if w > limit - n {
            proof {
                lemma_utf8_len_prefix(v@, i + 1);
            }
            return None;
        }
        n = n + w;
        i = i + 1;
    }
    assert(v@.take(i as int) == v@);
    Some(n)
}

proof fn lemma_utf8_len_prefix(s: Seq<char>, i: int)
    requires
        0 <= i <= s.len(),
    ensures
        utf8_len(s.take(i)) <= utf8_len(s),
    decreases s.len(),
{
    if i < s.len() {
        assert(s.drop_last().take(i) == s.take(i));
        lemma_utf8_len_prefix(s.drop_last(), i);
    } else {
        assert(s.take(i) == s);
    }
}


/// The character sequences of a sequence of strings.
pub open spec fn str_views(r: Seq<String>) -> Seq<Seq<char>> {
    Seq::new(r.len(), |i: int| r[i]@)
}

pub proof fn lemma_str_views_push(r: Seq<String>, x: String)
    ensures
        str_views(r.push(x)) == str_views(r).push(x@),
{
    assert(str_views(r.push(x)) =~= str_views(r).push(x@));
}

/// `s` with every repeated element after its first occurrence removed.
pub open spec fn dedup<A>(s: Seq<A>) -> Seq<A>
    decreases s.len(),
{
    if s.len() == 0 {
        s
    } else {
        let d = dedup(s.drop_last());
        if d.contains(s.last()) {
            d
        } else {
            d.push(s.last())
        }
    }
}

pub proof fn lemma_dedup_props<A>(s: Seq<A>)
    ensures
        dedup(s).no_duplicates(),
        dedup(s).to_set() == s.to_set(),
        forall|x: A| dedup(s).contains(x) <==> s.contains(x),
    decreases s.len(),
{
    if s.len() > 0 {
        lemma_dedup_props(s.drop_last());
        let d = dedup(s.drop_last());
        assert(s == s.drop_last().push(s.last()));
        assert forall|x: A| s.contains(x) <==> (s.drop_last().contains(x) || x == s.last()) by {
            if s.contains(x) {
                let i = choose|i: int| 0 <= i < s.len() && s[i] == x;
                if i < s.len() - 1 {
                    assert(s.drop_last()[i] == x);
                }
            }
            if s.drop_last().contains(x) {
                let i = choose|i: int| 0 <= i < s.drop_last().len() && s.drop_last()[i] == x;
                assert(s[i] == x);
            }
        }
        if !d.contains(s.last()) {
            assert forall|x: A| d.push(s.last()).contains(x) <==> (d.contains(x) || x == s.last()) by {
                if d.push(s.last()).contains(x) {
                    let i = choose|i: int| 0 <= i < d.push(s.last()).len() && d.push(s.last())[i] == x;
                    if i < d.len() {
                        assert(d[i] == x);
                    }
                }
                if d.contains(x) {
                    let i = choose|i: int| 0 <= i < d.len() && d[i] == x;
                    assert(d.push(s.last())[i] == x);
                }
                if x == s.last() {
                    assert(d.push(s.last())[d.len() as int] == x);
                }
            }
        }
        assert(dedup(s).to_set() =~= s.to_set());
    }
}

/// Whether `v` holds a string equal to `x`.
pub fn contains_string(v: &Vec<String>, x: &String) -> (b: bool)
    ensures
        b == str_views(v@).contains(x@),
{
    let mut i: usize = 0;
    while i < v.len()
        invariant
            i <= v@.len(),
            forall|j: int| 0 <= j < i ==> v@[j]@ != x@,
        decreases v.len() - i,
    {
        if v[i] == *x {
            assert(str_views(v@)[i as int] == x@);
            return true;
        }
        i = i + 1;
    }
    assert forall|j: int| 0 <= j < str_views(v@).len() implies str_views(v@)[j] != x@ by {
        assert(str_views(v@)[j] == v@[j]@);
    }
    false
}

/// Appends `x` to `v` unless `v` already holds an equal string.
pub fn push_unique(v: &mut Vec<String>, x: String)
    ensures
        str_views(final(v)@) == (if str_views(old(v)@).contains(x@) {
            str_views(old(v)@)
        } else {
            str_views(old(v)@).push(x@)
        }),
{
    if !contains_string(v, &x) {
        proof {
            lemma_str_views_push(v@, x);
        }
        v.push(x);
    }
}


/// Whether `v` holds `x`.
pub fn contains_u32(v: &[u32], x: u32) -> (b: bool)
    ensures
        b == v@.contains(x),
{
    let mut i: usize = 0;
    while i < v.len()
        invariant
            i <= v@.len(),
            forall|j: int| 0 <= j < i ==> v@[j] != x,
        decreases v.len() - i,
    {
        if v[i] == x {
            return true;
        }
        i = i + 1;
    }
    false
}


pub proof fn lemma_push_contains<A>(s: Seq<A>, a: A)
    ensures
        forall|x: A| #[trigger] s.push(a).contains(x) <==> (s.contains(x) || x == a),
        s.push(a).to_set() == s.to_set().insert(a),
{
    assert forall|x: A| #[trigger] s.push(a).contains(x) <==> (s.contains(x) || x == a) by {
        if s.push(a).contains(x) {
            let i = choose|i: int| 0 <= i < s.push(a).len() && s.push(a)[i] == x;
            if i < s.len() {
                assert(s[i] == x);
            }
        }
        if s.contains(x) {
            let i = choose|i: int| 0 <= i < s.len() && s[i] == x;
            assert(s.push(a)[i] == x);
        }
        if x == a {
            assert(s.push(a)[s.len() as int] == x);
        }
    }
    assert(s.push(a).to_set() =~= s.to_set().insert(a));
}


/// The first position at which `p` occurs in `s` (meaningful when `contains(s, p)`).
pub open spec fn first_occurrence(s: Seq<char>, p: Seq<char>) -> int {
    choose|k: int| occurs_at(s, p, k) && forall|j: int| 0 <= j < k ==> !occurs_at(s, p, j)
}

pub proof fn lemma_first_occurrence(s: Seq<char>, p: Seq<char>, k: int)
    requires
        occurs_at(s, p, k),
        forall|j: int| 0 <= j < k ==> !occurs_at(s, p, j),
    ensures
        first_occurrence(s, p) == k,
        contains(s, p),
{
    let c = first_occurrence(s, p);
    assert(occurs_at(s, p, c) && forall|j: int| 0 <= j < c ==> !occurs_at(s, p, j));
    assert(!(c < k));
    assert(!(k < c));
}

} // verus!
