//! Text utilities over `char` sequences: whitespace, splitting, joining,
//! trimming and decimal rendering.
use vstd::prelude::*;

verus! {

/// The Unicode `White_Space` property, which `char::is_whitespace` follows.
pub open spec fn spec_is_whitespace(c: char) -> bool {
    let u = c as u32;
    ||| 0x09 <= u <= 0x0d
    ||| u == 0x20
    ||| u == 0x85
    ||| u == 0xa0
    ||| u == 0x1680
    ||| 0x2000 <= u <= 0x200a
    ||| u == 0x2028
    ||| u == 0x2029
    ||| u == 0x202f
    ||| u == 0x205f
    ||| u == 0x3000
}

/// Whether `c` is a whitespace character in the sense of Unicode `White_Space`.
pub fn is_whitespace(c: char) -> (r: bool)
    ensures
        r == spec_is_whitespace(c),
{
    let u = c as u32;
    (0x09 <= u && u <= 0x0d) || u == 0x20 || u == 0x85 || u == 0xa0 || u == 0x1680 || (0x2000
        <= u && u <= 0x200a) || u == 0x2028 || u == 0x2029 || u == 0x202f || u == 0x205f || u
        == 0x3000
}

} // verus!

verus! {

/// Appends one character to a string by std's `String::push`. The contract
/// claims what its documentation says: the character is added at the end.
#[verifier::external_body]
pub(crate) fn push_char(s: &mut String, c: char)
    ensures
        final(s)@ == old(s)@.push(c),
{
    s.push(c);
}

/// The characters of a string, in order.
pub fn chars_of(s: &str) -> (r: Vec<char>)
    ensures
        r@ == s@,
{
    let mut r: Vec<char> = Vec::new();
    for c in it: s.chars()
        invariant
            r@ == it.seq().take(it.index() as int),
    {
        r.push(c);
    }
    r
}

} // verus!

verus! {

/// The whitespace-separated words of `s`, in order: the maximal runs of
/// characters that are not whitespace. Defined by reading `s` from the left,
/// one character at a time.
pub open spec fn spec_words(s: Seq<char>) -> Seq<Seq<char>>
    decreases s.len(),
{
    if s.len() == 0 {
        seq![]
    } else {
        let before = spec_words(s.drop_last());
        let c = s.last();
        if spec_is_whitespace(c) {
            before
        } else if s.len() >= 2 && !spec_is_whitespace(s[s.len() - 2]) {
            before.update(before.len() - 1, before.last().push(c))
        } else {
            before.push(seq![c])
        }
    }
}

/// Every word is non-empty and holds no whitespace; a string that ends in a
/// non-whitespace character has at least one word.
pub proof fn lemma_words_shape(s: Seq<char>)
    ensures
        forall|i: int|
            0 <= i < spec_words(s).len() ==> #[trigger] spec_words(s)[i].len() > 0,
        forall|i: int, j: int|
            0 <= i < spec_words(s).len() && 0 <= j < spec_words(s)[i].len()
                ==> !spec_is_whitespace(#[trigger] spec_words(s)[i][j]),
        s.len() > 0 && !spec_is_whitespace(s.last()) ==> spec_words(s).len() > 0,
    decreases s.len(),
{
    if s.len() > 0 {
        lemma_words_shape(s.drop_last());
        if s.len() >= 2 && !spec_is_whitespace(s[s.len() - 2]) {
            assert(s.drop_last().last() == s[s.len() - 2]);
        }
    }
}

/// Splits `s` into its whitespace-separated words.
pub fn split_whitespace(s: &str) -> (r: Vec<String>)
    ensures
        r.deep_view() == spec_words(s@),
{
    let cs = chars_of(s);
    let mut words: Vec<String> = Vec::new();
    let mut cur = String::new();
    let mut in_word = false;
    let n = cs.len();
    for i in 0..n
        invariant
            n == cs@.len(),
            cs@ == s@,
            in_word == (i > 0 && !spec_is_whitespace(cs@[i - 1])),
            !in_word ==> cur@.len() == 0,
            spec_words(cs@.take(i as int)) == (if in_word {
                words.deep_view().push(cur@)
            } else {
                words.deep_view()
            }),
    {
        let c = cs[i];
        assert(cs@.take(i + 1).drop_last() == cs@.take(i as int));
        assert(cs@.take(i + 1).last() == c);
        if i > 0 {
            assert(cs@.take(i + 1)[i - 1] == cs@[i - 1]);
        }
        let ghost before = words.deep_view();
        if is_whitespace(c) {
            if in_word {
                let w = cur;
                cur = String::new();
                words.push(w);
                assert(words.deep_view() == before.push(w@));
            }
            in_word = false;
        } else {
            push_char(&mut cur, c);
            if !in_word {
                assert(cur@ == seq![c]);
            }
            in_word = true;
        }
    }
    assert(cs@.take(n as int) == cs@);
    if in_word {
        let ghost before = words.deep_view();
        words.push(cur);
        assert(words.deep_view() == before.push(cur@));
    }
    words
}

} // verus!

verus! {

/// The pieces of `s` between occurrences of `sep`, as `str::split` with a
/// character pattern yields them: always at least one piece, empty pieces kept.
pub open spec fn spec_split(s: Seq<char>, sep: char) -> Seq<Seq<char>>
    decreases s.len(),
{
    if s.len() == 0 {
        seq![seq![]]
    } else {
        let before = spec_split(s.drop_last(), sep);
        let c = s.last();
        if c == sep {
            before.push(seq![])
        } else {
            before.update(before.len() - 1, before.last().push(c))
        }
    }
}

/// The pieces joined with `sep` between each two neighbours.
pub open spec fn spec_join(parts: Seq<Seq<char>>, sep: Seq<char>) -> Seq<char>
    decreases parts.len(),
{
    if parts.len() == 0 {
        seq![]
    } else if parts.len() == 1 {
        parts[0]
    } else {
        spec_join(parts.drop_last(), sep) + sep + parts.last()
    }
}

/// Splitting always yields at least one piece.
pub proof fn lemma_split_nonempty(s: Seq<char>, sep: char)
    ensures
        spec_split(s, sep).len() >= 1,
    decreases s.len(),
{
    if s.len() > 0 {
        lemma_split_nonempty(s.drop_last(), sep);
    }
}

/// Joining the pieces of a split with the separator gives back the string.
pub proof fn lemma_join_split(s: Seq<char>, sep: char)
    ensures
        spec_join(spec_split(s, sep), seq![sep]) == s,
    decreases s.len(),
{
    if s.len() > 0 {
        let t = s.drop_last();
        let x = s.last();
        lemma_join_split(t, sep);
        lemma_split_nonempty(t, sep);
        let p = spec_split(t, sep);
        if x == sep {
            let q = p.push(seq![]);
            assert(q.drop_last() == p);
            assert(spec_join(q, seq![sep]) == t + seq![sep] + Seq::<char>::empty());
            assert(t + seq![sep] + Seq::<char>::empty() == s);
        } else {
            let q = p.update(p.len() - 1, p.last().push(x));
            if p.len() == 1 {
                assert(spec_join(p, seq![sep]) == p[0]);
                assert(q[0] == t.push(x));
                assert(t.push(x) == s);
            } else {
                assert(q.drop_last() == p.drop_last());
                assert(spec_join(q, seq![sep]) == spec_join(p.drop_last(), seq![sep]) + seq![sep]
                    + p.last().push(x));
                assert(spec_join(p, seq![sep]) == spec_join(p.drop_last(), seq![sep]) + seq![sep]
                    + p.last());
                assert((spec_join(p.drop_last(), seq![sep]) + seq![sep] + p.last()).push(x)
                    == spec_join(p.drop_last(), seq![sep]) + seq![sep] + p.last().push(x));
                assert(t.push(x) == s);
            }
        }
    }
}

/// A string without the separator is a single piece.
pub proof fn lemma_split_without_sep(a: Seq<char>, sep: char)
    requires
        !a.contains(sep),
    ensures
        spec_split(a, sep) == seq![a],
    decreases a.len(),
{
    if a.len() > 0 {
        let t = a.drop_last();
        assert(!t.contains(sep)) by {
            if t.contains(sep) {
                let k = choose|k: int| 0 <= k < t.len() && t[k] == sep;
                assert(a[k] == sep);
            }
        }
        lemma_split_without_sep(t, sep);
        assert(a[a.len() - 1] == a.last());
        assert(a.last() != sep);
        assert(t.push(a.last()) == a);
        assert(seq![t].last() == t);
        assert(seq![t].update(0, t.push(a.last())) == seq![a]);
    } else {
        assert(a == Seq::<char>::empty());
    }
}

/// A string that starts with a separator-free piece `a` and the separator splits
/// into `a` followed by the pieces of the rest.
pub proof fn lemma_split_after_first(a: Seq<char>, sep: char, b: Seq<char>)
    requires
        !a.contains(sep),
    ensures
        spec_split(a + seq![sep] + b, sep) == seq![a] + spec_split(b, sep),
    decreases b.len(),
{
    let s = a + seq![sep] + b;
    if b.len() == 0 {
        lemma_split_without_sep(a, sep);
        assert(s.drop_last() == a);
        assert(s.last() == sep);
        assert(seq![a].push(Seq::<char>::empty()) == seq![a] + seq![Seq::<char>::empty()]);
    } else {
        let b1 = b.drop_last();
        let x = b.last();
        lemma_split_after_first(a, sep, b1);
        lemma_split_nonempty(b1, sep);
        assert(s.drop_last() == a + seq![sep] + b1);
        assert(s.last() == x);
        let q = spec_split(b1, sep);
        if x == sep {
            assert((seq![a] + q).push(seq![]) == seq![a] + q.push(seq![]));
        } else {
            let aq = seq![a] + q;
            assert(aq.update(aq.len() - 1, aq.last().push(x)) == seq![a] + q.update(
                q.len() - 1,
                q.last().push(x),
            ));
        }
    }
}

/// Splits `s` at every occurrence of `sep`.
pub fn split_on(s: &str, sep: char) -> (r: Vec<String>)
    ensures
        r.deep_view() == spec_split(s@, sep),
{
    let cs = chars_of(s);
    let mut pieces: Vec<String> = Vec::new();
    let mut cur = String::new();
    let n = cs.len();
    assert(cs@.take(0) == Seq::<char>::empty());
    for i in 0..n
        invariant
            n == cs@.len(),
            cs@ == s@,
            spec_split(cs@.take(i as int), sep) == pieces.deep_view().push(cur@),
    {
        let c = cs[i];
        assert(cs@.take(i + 1).drop_last() == cs@.take(i as int));
        assert(cs@.take(i + 1).last() == c);
        let ghost before = pieces.deep_view();
        if c == sep {
            let w = cur;
            cur = String::new();
            pieces.push(w);
            assert(pieces.deep_view() == before.push(w@));
        } else {
            push_char(&mut cur, c);
        }
    }
    assert(cs@.take(n as int) == cs@);
    let ghost before = pieces.deep_view();
    pieces.push(cur);
    assert(pieces.deep_view() == before.push(cur@));
    pieces
}

/// Joins `parts[start..]` with `sep` between neighbours.
pub fn join_from(parts: &Vec<String>, start: usize, sep: &str) -> (r: String)
    requires
        start <= parts.len(),
    ensures
        r@ == spec_join(parts.deep_view().skip(start as int), sep@),
{
    let mut r = String::new();
    let n = parts.len();
    let ghost all = parts.deep_view();
    assert(all.subrange(start as int, start as int) == Seq::<Seq<char>>::empty());
    for i in start..n
        invariant
            n == parts.len(),
            all == parts.deep_view(),
            start <= n,
            r@ == spec_join(all.subrange(start as int, i as int), sep@),
    {
        let ghost prev = all.subrange(start as int, i as int);
        let ghost next = all.subrange(start as int, i + 1);
        assert(next.drop_last() == prev);
        assert(next.last() == parts[i as int]@);
        if i > start {
            r.append(sep);
        } else {
            assert(r@ == Seq::<char>::empty());
        }
        r.append(parts[i].as_str());
    }
    assert(all.subrange(start as int, n as int) == all.skip(start as int));
    r
}

/// Joins all of `parts` with `sep` between neighbours.
pub fn join(parts: &Vec<String>, sep: &str) -> (r: String)
    ensures
        r@ == spec_join(parts.deep_view(), sep@),
{
    let r = join_from(parts, 0, sep);
    assert(parts.deep_view().skip(0) == parts.deep_view());
    r
}

} // verus!

verus! {

/// `s` without its leading whitespace.
pub open spec fn spec_trim_start(s: Seq<char>) -> Seq<char>
    decreases s.len(),
{
    if s.len() > 0 && spec_is_whitespace(s[0]) {
        spec_trim_start(s.drop_first())
    } else {
        s
    }
}

/// `s` without its trailing whitespace.
pub open spec fn spec_trim_end(s: Seq<char>) -> Seq<char>
    decreases s.len(),
{
    if s.len() > 0 && spec_is_whitespace(s.last()) {
        spec_trim_end(s.drop_last())
    } else {
        s
    }
}

/// `s` without leading and trailing whitespace, as `str::trim` gives it.
pub open spec fn spec_trim(s: Seq<char>) -> Seq<char> {
    spec_trim_end(spec_trim_start(s))
}

/// The characters `cs[lo..hi]` as a string.
pub fn string_of_range(cs: &Vec<char>, lo: usize, hi: usize) -> (r: String)
    requires
        lo <= hi <= cs.len(),
    ensures
        r@ == cs@.subrange(lo as int, hi as int),
{
    let mut r = String::new();
    for i in lo..hi
        invariant
            lo <= hi <= cs.len(),
            r@ == cs@.subrange(lo as int, i as int),
    {
        push_char(&mut r, cs[i]);
        assert(cs@.subrange(lo as int, i + 1) == cs@.subrange(lo as int, i as int).push(cs@[i as int]));
    }
    r
}

/// Removes leading and trailing whitespace.
pub fn trim(s: &str) -> (r: String)
    ensures
        r@ == spec_trim(s@),
{
    let cs = chars_of(s);
    let n = cs.len();
    let mut lo: usize = 0;
    assert(cs@.skip(0) == cs@);
    while lo < n && is_whitespace(cs[lo])
        invariant
            lo <= n,
            n == cs@.len(),
            spec_trim_start(cs@) == spec_trim_start(cs@.skip(lo as int)),
        decreases n - lo,
    {
        assert(cs@.skip(lo as int).drop_first() == cs@.skip(lo + 1));
        assert(cs@.skip(lo as int)[0] == cs@[lo as int]);
        lo = lo + 1;
    }
    assert(spec_trim_start(cs@) == cs@.subrange(lo as int, n as int)) by {
        assert(cs@.skip(lo as int) == cs@.subrange(lo as int, n as int));
        if lo < n {
            assert(cs@.skip(lo as int)[0] == cs@[lo as int]);
        }
    }
    let mut hi: usize = n;
    while hi > lo && is_whitespace(cs[hi - 1])
        invariant
            lo <= hi <= n,
            n == cs@.len(),
            spec_trim(cs@) == spec_trim_end(cs@.subrange(lo as int, hi as int)),
        decreases hi,
    {
        assert(cs@.subrange(lo as int, hi as int).drop_last() == cs@.subrange(lo as int, hi - 1));
        assert(cs@.subrange(lo as int, hi as int).last() == cs@[hi - 1]);
        hi = hi - 1;
    }
    if hi > lo {
        assert(cs@.subrange(lo as int, hi as int).last() == cs@[hi - 1]);
    }
    string_of_range(&cs, lo, hi)
}

/// The decimal digit character for `d`.
pub open spec fn spec_digit(d: nat) -> char {
    if d == 0 {
        '0'
    } else if d == 1 {
        '1'
    } else if d == 2 {
        '2'
    } else if d == 3 {
        '3'
    } else if d == 4 {
        '4'
    } else if d == 5 {
        '5'
    } else if d == 6 {
        '6'
    } else if d == 7 {
        '7'
    } else if d == 8 {
        '8'
    } else {
        '9'
    }
}

/// The decimal rendering of `n`, without sign or leading zeros.
pub open spec fn spec_decimal(n: nat) -> Seq<char>
    decreases n,
{
    if n < 10 {
        seq![spec_digit(n)]
    } else {
        spec_decimal(n / 10).push(spec_digit(n % 10))
    }
}

fn digit(d: u64) -> (r: char)
    requires
        d < 10,
    ensures
        r == spec_digit(d as nat),
{
    if d == 0 {
        '0'
    } else if d == 1 {
        '1'
    } else if d == 2 {
        '2'
    } else if d == 3 {
        '3'
    } else if d == 4 {
        '4'
    } else if d == 5 {
        '5'
    } else if d == 6 {
        '6'
    } else if d == 7 {
        '7'
    } else if d == 8 {
        '8'
    } else {
        '9'
    }
}

/// Renders `n` in decimal, as `format!("{}", n)` does.
pub fn decimal(n: u64) -> (r: String)
    ensures
        r@ == spec_decimal(n as nat),
        spec_digits_value(r@) == n,
        forall|i: int| 0 <= i < r@.len() ==> spec_is_digit(#[trigger] r@[i]),
    decreases n,
{
    proof {
        law_decimal_reads_back(n as nat);
    }
    if n < 10 {
        let mut s = String::new();
        push_char(&mut s, digit(n));
        s
    } else {
        let mut s = decimal(n / 10);
        push_char(&mut s, digit(n % 10));
        s
    }
}

/// Decimal renderings hold digits only, so never a colon.
pub proof fn lemma_decimal_has_no_colon(n: nat)
    ensures
        !spec_decimal(n).contains(':'),
    decreases n,
{
    if n >= 10 {
        lemma_decimal_has_no_colon(n / 10);
        let d = spec_decimal(n / 10);
        let e = d.push(spec_digit(n % 10));
        if e.contains(':') {
            let k = choose|k: int| 0 <= k < e.len() && e[k] == ':';
            if k < d.len() {
                assert(d[k] == ':');
            }
        }
    } else {
        if seq![spec_digit(n)].contains(':') {
            let k = choose|k: int| 0 <= k < 1 && seq![spec_digit(n)][k] == ':';
            assert(k == 0);
        }
    }
}

} // verus!

verus! {

/// No piece of a split holds the separator.
pub proof fn lemma_split_pieces_lack_sep(s: Seq<char>, sep: char)
    ensures
        forall|i: int|
            0 <= i < spec_split(s, sep).len() ==> !(#[trigger] spec_split(s, sep)[i]).contains(sep),
    decreases s.len(),
{
    if s.len() > 0 {
        let t = s.drop_last();
        let c = s.last();
        lemma_split_pieces_lack_sep(t, sep);
        lemma_split_nonempty(t, sep);
        let p = spec_split(t, sep);
        let q = spec_split(s, sep);
        assert forall|i: int| 0 <= i < q.len() implies !(#[trigger] q[i]).contains(sep) by {
            if c == sep {
                if i < p.len() {
                    assert(q[i] == p[i]);
                } else {
                    assert(q[i] == Seq::<char>::empty());
                }
            } else if i < p.len() - 1 {
                assert(q[i] == p[i]);
            } else {
                let w = p.last().push(c);
                assert(q[i] == w);
                assert(!p[p.len() - 1].contains(sep));
                if w.contains(sep) {
                    let k = choose|k: int| 0 <= k < w.len() && w[k] == sep;
                    if k < p.last().len() {
                        assert(p[p.len() - 1][k] == sep);
                    }
                }
            }
        }
    }
}

/// Two strings of the form `first + sep + rest` whose first parts lack the
/// separator have the same first part.
pub proof fn lemma_first_piece_unique(
    y: Seq<char>,
    a1: Seq<char>,
    x: Seq<char>,
    a2: Seq<char>,
    sep: char,
)
    requires
        !y.contains(sep),
        !x.contains(sep),
        y + seq![sep] + a1 == x + seq![sep] + a2,
    ensures
        y == x,
{
    let l = y + seq![sep] + a1;
    let r = x + seq![sep] + a2;
    if y.len() < x.len() {
        assert(l[y.len() as int] == sep);
        assert(r[y.len() as int] == x[y.len() as int]);
    } else if x.len() < y.len() {
        assert(r[x.len() as int] == sep);
        assert(l[x.len() as int] == y[x.len() as int]);
    } else {
        assert forall|k: int| 0 <= k < y.len() implies y[k] == x[k] by {
            assert(l[k] == y[k] && r[k] == x[k]);
        }
        assert(y == x);
    }
}

} // verus!

verus! {

/// A non-empty run of characters none of which is whitespace.
pub open spec fn spec_is_word(w: Seq<char>) -> bool {
    w.len() > 0 && forall|i: int| 0 <= i < w.len() ==> !spec_is_whitespace(#[trigger] w[i])
}

/// A whitespace character at the end adds no word.
pub proof fn lemma_words_push_whitespace(s: Seq<char>, c: char)
    requires
        spec_is_whitespace(c),
    ensures
        spec_words(s.push(c)) == spec_words(s),
{
    assert(s.push(c).drop_last() == s);
}

/// A word written after whitespace (or at the start) becomes the last word.
pub proof fn lemma_words_append_word(s: Seq<char>, w: Seq<char>)
    requires
        s.len() == 0 || spec_is_whitespace(s.last()),
        spec_is_word(w),
    ensures
        spec_words(s + w) == spec_words(s).push(w),
    decreases w.len(),
{
    let t = s + w;
    if w.len() == 1 {
        assert(t.drop_last() == s);
        assert(t.last() == w[0]);
        if t.len() >= 2 {
            assert(t[t.len() - 2] == s.last());
        }
        assert(seq![w[0]] == w);
    } else {
        let w1 = w.drop_last();
        assert forall|i: int| 0 <= i < w1.len() implies !spec_is_whitespace(#[trigger] w1[i]) by {
            assert(w1[i] == w[i]);
        }
        lemma_words_append_word(s, w1);
        assert(t.drop_last() == s + w1);
        assert(t.last() == w[w.len() - 1]);
        assert(t[t.len() - 2] == w[w.len() - 2]);
        let before = spec_words(s).push(w1);
        assert(before.last() == w1);
        assert(w1.push(w.last()) == w);
        assert(before.update(before.len() - 1, before.last().push(w.last())) == spec_words(s).push(
            w,
        ));
    }
}

/// Words joined by single spaces after a whitespace-ended prefix read back as
/// the prefix's words followed by those words.
pub proof fn lemma_words_of_joined(p: Seq<char>, ws: Seq<Seq<char>>)
    requires
        p.len() == 0 || spec_is_whitespace(p.last()),
        ws.len() > 0,
        forall|i: int| 0 <= i < ws.len() ==> spec_is_word(#[trigger] ws[i]),
    ensures
        spec_words(p + spec_join(ws, seq![' '])) == spec_words(p) + ws,
    decreases ws.len(),
{
    if ws.len() == 1 {
        assert(spec_is_word(ws[0]));
        lemma_words_append_word(p, ws[0]);
        assert(spec_words(p).push(ws[0]) == spec_words(p) + ws);
    } else {
        let front = ws.drop_last();
        let last = ws.last();
        assert forall|i: int| 0 <= i < front.len() implies spec_is_word(#[trigger] front[i]) by {
            assert(front[i] == ws[i]);
        }
        assert(spec_is_word(ws[ws.len() - 1]));
        lemma_words_of_joined(p, front);
        let q = p + spec_join(front, seq![' ']);
        assert(spec_is_whitespace(' '));
        lemma_words_push_whitespace(q, ' ');
        lemma_words_append_word(q.push(' '), last);
        assert(p + spec_join(ws, seq![' ']) == q.push(' ') + last);
        assert(spec_words(p) + front + seq![last] == spec_words(p) + ws);
    }
}

} // verus!

verus! {

/// Whether `c` is one of the ASCII digits `0` to `9`.
pub open spec fn spec_is_digit(c: char) -> bool {
    '0' as u32 <= c as u32 <= '9' as u32
}

/// The number that a string of decimal digits reads as, most significant first.
pub open spec fn spec_digits_value(s: Seq<char>) -> nat
    decreases s.len(),
{
    if s.len() == 0 {
        0
    } else {
        spec_digits_value(s.drop_last()) * 10 + ((s.last() as u32 - '0' as u32) as nat)
    }
}

/// The decimal rendering of `n` holds digits only, reads back as `n`, and starts
/// with `0` only where it is the single digit of zero.
pub proof fn law_decimal_reads_back(n: nat)
    ensures
        spec_decimal(n).len() > 0,
        forall|i: int| 0 <= i < spec_decimal(n).len() ==> spec_is_digit(#[trigger] spec_decimal(n)[i]),
        spec_digits_value(spec_decimal(n)) == n,
        spec_decimal(n)[0] == '0' ==> n == 0,
    decreases n,
{
    let d = spec_decimal(n);
    if n < 10 {
        assert(d == seq![spec_digit(n)]);
        assert(d.drop_last() == Seq::<char>::empty());
        assert(spec_digit(n) as u32 == 48 + n);
        assert('0' as u32 == 48);
        assert(d.last() == spec_digit(n));
        assert(spec_digits_value(d) == spec_digits_value(d.drop_last()) * 10 + ((d.last() as u32
            - '0' as u32) as nat));
    } else {
        law_decimal_reads_back(n / 10);
        let front = spec_decimal(n / 10);
        let m = n % 10;
        assert(spec_digit(m) as u32 == 48 + m);
        assert(d == front.push(spec_digit(m)));
        assert(d.drop_last() == front);
        assert forall|i: int| 0 <= i < d.len() implies spec_is_digit(#[trigger] d[i]) by {
            if i < front.len() {
                assert(d[i] == front[i]);
            }
        }
        assert(d[0] == front[0]);
        assert(n / 10 > 0);
        assert('0' as u32 == 48);
        assert(d.last() == spec_digit(m));
        assert(spec_digits_value(d) == spec_digits_value(front) * 10 + m);
        assert((n / 10) * 10 + m == n);
    }
}

} // verus!
