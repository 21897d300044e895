//! Character-level text helpers: whitespace trimming, ASCII lower-casing,
//! splitting at newlines and lexicographic ordering, each stated over
//! `Seq<char>`.

use vstd::prelude::*;
use vstd::utf8::{decode_utf8, valid_utf8};

verus! {

/// The Unicode `White_Space` property, the set that `char::is_whitespace`
/// and therefore `str::trim` use.
pub open spec fn is_ws(c: char) -> bool {
    let u = c as u32;
    ||| 0x09 <= u <= 0x0d
    ||| u == 0x20
    ||| u == 0x85
    ||| u == 0xa0
    ||| u == 0x1680
    ||| 0x2000 <= u <= 0x200a
    ||| u == 0x2028
    ||| u == 0x2029
    ||| u == 0x202f
    ||| u == 0x205f
    ||| u == 0x3000
}

/// `s` without its leading whitespace.
pub open spec fn trim_start(s: Seq<char>) -> Seq<char>
    decreases s.len(),
{
    if s.len() > 0 && is_ws(s[0]) {
        trim_start(s.drop_first())
    } else {
        s
    }
}

/// `s` without its trailing whitespace.
pub open spec fn trim_end(s: Seq<char>) -> Seq<char>
    decreases s.len(),
{
    if s.len() > 0 && is_ws(s.last()) {
        trim_end(s.drop_last())
    } else {
        s
    }
}

/// `s` without leading and trailing whitespace, as `str::trim` gives it.
pub open spec fn trim(s: Seq<char>) -> Seq<char> {
    trim_end(trim_start(s))
}

/// One character mapped as `char::to_ascii_lowercase` maps it.
pub open spec fn lower_char(c: char) -> char {
    if 0x41 <= (c as u32) <= 0x5a {
        ((c as u32) + 32) as char
    } else {
        c
    }
}

/// Every character mapped by `lower_char`, as `str::to_ascii_lowercase` does.
pub open spec fn ascii_lower(s: Seq<char>) -> Seq<char> {
    s.map_values(|c: char| lower_char(c))
}

/// The pieces of `s` between occurrences of `sep`, in order, as
/// `str::split(sep)` yields them (an empty text gives one empty piece).
pub open spec fn split_char(s: Seq<char>, sep: char) -> Seq<Seq<char>>
    decreases s.len(),
{
    if s.len() == 0 {
        seq![Seq::<char>::empty()]
    } else {
        let prev = split_char(s.drop_last(), sep);
        if s.last() == sep {
            prev.push(Seq::<char>::empty())
        } else {
            prev.update(prev.len() - 1, prev.last().push(s.last()))
        }
    }
}

/// The pieces of `s` between newline characters.
pub open spec fn split_newlines(s: Seq<char>) -> Seq<Seq<char>> {
    split_char(s, '\n')
}

/// A piece without one trailing carriage return.
pub open spec fn strip_cr(p: Seq<char>) -> Seq<char> {
    if p.len() > 0 && p.last() == '\r' {
        p.drop_last()
    } else {
        p
    }
}

/// The lines of `s` as `str::lines` yields them: the pieces between
/// newlines, each without the carriage return of a `\r\n` ending, and no
/// empty last line after a final newline (nor for an empty text).
pub open spec fn text_lines(s: Seq<char>) -> Seq<Seq<char>> {
    let ps = split_newlines(s);
    let body = ps.take(ps.len() - 1).map_values(|p: Seq<char>| strip_cr(p));
    if ps.last().len() == 0 {
        body
    } else {
        body.push(ps.last())
    }
}

/// Strict lexicographic order on character sequences, comparing scalar
/// values; it is the order of `str`'s `Ord`, since UTF-8 preserves the
/// order of scalar values byte by byte.
pub open spec fn seq_lt(a: Seq<char>, b: Seq<char>) -> bool
    decreases a.len(),
{
    if a.len() == 0 {
        b.len() > 0
    } else if b.len() == 0 {
        false
    } else if (a[0] as u32) < (b[0] as u32) {
        true
    } else if (a[0] as u32) > (b[0] as u32) {
        false
    } else {
        seq_lt(a.drop_first(), b.drop_first())
    }
}

/// Decimal digits of `n`, as `usize`'s `Display` writes them.
pub open spec fn decimal(n: nat) -> Seq<char>
    decreases n,
{
    if n < 10 {
        seq![digit_char(n)]
    } else {
        decimal(n / 10).push(digit_char(n % 10))
    }
}

/// The character of one decimal digit.
pub open spec fn digit_char(d: nat) -> char {
    ((d + 48) as u32) as char
}

/// `split_char` never yields an empty list.
pub proof fn lemma_split_nonempty(s: Seq<char>, sep: char)
    ensures
        split_char(s, sep).len() >= 1,
    decreases s.len(),
{
    if s.len() > 0 {
        lemma_split_nonempty(s.drop_last(), sep);
    }
}

/// Whether `c` has the `White_Space` property.
pub fn is_whitespace(c: char) -> (r: bool)
    ensures
        r == is_ws(c),
{
    let u = c as u32;
    (0x09 <= u && u <= 0x0d) || u == 0x20 || u == 0x85 || u == 0xa0 || u == 0x1680 || (0x2000
        <= u && u <= 0x200a) || u == 0x2028 || u == 0x2029 || u == 0x202f || u == 0x205f || u
        == 0x3000
}

/// The characters of `s`, in order.
pub fn chars_of(s: &str) -> (r: Vec<char>)
    ensures
        r@ == s@,
{
    let mut r: Vec<char> = Vec::new();
    for c in it: s.chars()
        invariant
            it.seq() == s@,
            r@ == it.seq().take(it.index()),
    {
        r.push(c);
    }
    r
}

/// Skipping whitespace at the front does not change `trim_start`.
proof fn lemma_trim_start_skip(s: Seq<char>, i: int)
    requires
        0 <= i <= s.len(),
        forall|k: int| 0 <= k < i ==> is_ws(#[trigger] s[k]),
    ensures
        trim_start(s) == trim_start(s.skip(i)),
    decreases i,
{
    if i > 0 {
        assert(s.skip(1) =~= s.drop_first());
        assert(s.skip(1).skip(i - 1) =~= s.skip(i));
        lemma_trim_start_skip(s.skip(1), i - 1);
    } else {
        assert(s.skip(0) =~= s);
    }
}

/// Dropping whitespace at the back does not change `trim_end`.
proof fn lemma_trim_end_take(s: Seq<char>, j: int)
    requires
        0 <= j <= s.len(),
        forall|k: int| j <= k < s.len() ==> is_ws(#[trigger] s[k]),
    ensures
        trim_end(s) == trim_end(s.take(j)),
    decreases s.len() - j,
{
    if j < s.len() {
        assert(s.take(s.len() - 1) =~= s.drop_last());
        assert(s.drop_last().take(j) =~= s.take(j));
        lemma_trim_end_take(s.drop_last(), j);
    } else {
        assert(s.take(j) =~= s);
    }
}

/// The elements of `v` from `a` up to `b`.
pub fn sub_chars(v: &Vec<char>, a: usize, b: usize) -> (r: Vec<char>)
    requires
        a <= b <= v.len(),
    ensures
        r@ == v@.subrange(a as int, b as int),
{
    let mut r: Vec<char> = Vec::new();
    let mut i = a;
    while i < b
        invariant
            a <= i <= b <= v.len(),
            r@ == v@.subrange(a as int, i as int),
        decreases b - i,
    {
        r.push(v[i]);
        i += 1;
    }
    r
}

/// `s` without leading and trailing whitespace.
pub fn trim_chars(s: &Vec<char>) -> (r: Vec<char>)
    ensures
        r@ == trim(s@),
{
    let n = s.len();
    let mut i: usize = 0;
    while i < n && is_whitespace(s[i])
        invariant
            i <= n == s.len(),
            forall|k: int| 0 <= k < i ==> is_ws(#[trigger] s@[k]),
        decreases n - i,
    {
        i += 1;
    }
    proof {
        lemma_trim_start_skip(s@, i as int);
    }
    let mut j: usize = n;
    while j > i && is_whitespace(s[j - 1])
        invariant
            i <= j <= n == s.len(),
            forall|k: int| j <= k < n ==> is_ws(#[trigger] s@[k]),
        decreases j - i,
    {
        j -= 1;
    }
    let r = sub_chars(s, i, j);
    proof {
        let t = s@.skip(i as int);
        assert(trim_start(t) == t);
        assert forall|k: int| j - i <= k < t.len() implies is_ws(#[trigger] t[k]) by {
            assert(t[k] == s@[k + i]);
        }
        lemma_trim_end_take(t, j - i);
        assert(t.take(j - i) =~= s@.subrange(i as int, j as int));
        let u = t.take(j - i);
        if u.len() > 0 {
            assert(u.last() == s@[j - 1]);
        }
    }
    r
}

/// Every character mapped by `lower_char`.
pub fn lower_chars(s: &Vec<char>) -> (r: Vec<char>)
    ensures
        r@ == ascii_lower(s@),
{
    let mut r: Vec<char> = Vec::new();
    let mut i: usize = 0;
    while i < s.len()
        invariant
            i <= s.len(),
            r@ =~= ascii_lower(s@.take(i as int)),
        decreases s.len() - i,
    {
        let c = s[i];
        let u = c as u32;
        let d = if 0x41 <= u && u <= 0x5a {
            ((u + 32) as u8) as char
        } else {
            c
        };
        assert(d == lower_char(c)) by {
            if 0x41 <= u && u <= 0x5a {
                assert(((u + 32) as u8) == u + 32);
            }
        }
        r.push(d);
        i += 1;
        assert(s@.take(i as int) =~= s@.take(i - 1).push(c));
    }
    assert(s@.take(s.len() as int) =~= s@);
    r
}

/// Whether `a` comes strictly before `b` in lexicographic order.
pub fn chars_lt(a: &Vec<char>, b: &Vec<char>) -> (r: bool)
    ensures
        r == seq_lt(a@, b@),
{
    let mut i: usize = 0;
    proof {
        assert(a@.skip(0) =~= a@);
        assert(b@.skip(0) =~= b@);
    }
    while i < a.len() && i < b.len()
        invariant
            i <= a.len(),
            i <= b.len(),
            seq_lt(a@, b@) == seq_lt(a@.skip(i as int), b@.skip(i as int)),
        decreases a.len() - i,
    {
        let x = a[i] as u32;
        let y = b[i] as u32;
        if x < y {
            return true;
        }
        if x > y {
            return false;
        }
        proof {
            let sa = a@.skip(i as int);
            let sb = b@.skip(i as int);
            assert(sa.drop_first() =~= a@.skip(i + 1));
            assert(sb.drop_first() =~= b@.skip(i + 1));
            assert(sa[0] == a@[i as int]);
            assert(sb[0] == b@[i as int]);
        }
        i += 1;
    }
    proof {
        assert(a@.skip(i as int).len() == a.len() - i);
        assert(b@.skip(i as int).len() == b.len() - i);
    }
    i == a.len() && i < b.len()
}

/// The views of a list of character vectors.
pub open spec fn views(v: Seq<Vec<char>>) -> Seq<Seq<char>> {
    v.map_values(|x: Vec<char>| x@)
}

/// The pieces of `s` between occurrences of `sep`, in order.
pub fn split_on(s: &Vec<char>, sep: char) -> (r: Vec<Vec<char>>)
    ensures
        views(r@) == split_char(s@, sep),
{
    let mut done: Vec<Vec<char>> = Vec::new();
    let mut cur: Vec<char> = Vec::new();
    let mut i: usize = 0;
    proof {
        assert(s@.take(0) =~= Seq::<char>::empty());
        assert(views(done@).push(cur@) =~= split_char(s@.take(0), sep));
    }
    while i < s.len()
        invariant
            i <= s.len(),
            views(done@).push(cur@) == split_char(s@.take(i as int), sep),
        decreases s.len() - i,
    {
        let c = s[i];
        let ghost before = split_char(s@.take(i as int), sep);
        proof {
            assert(s@.take(i + 1).drop_last() =~= s@.take(i as int));
            assert(s@.take(i + 1).last() == c);
            lemma_split_nonempty(s@.take(i as int), sep);
        }
        if c == sep {
            done.push(cur);
            cur = Vec::new();
            proof {
                assert(views(done@) =~= before);
                assert(views(done@).push(cur@) =~= before.push(Seq::<char>::empty()));
            }
        } else {
            cur.push(c);
            proof {
                assert(views(done@).push(cur@) =~= before.update(
                    before.len() - 1,
                    before.last().push(c),
                ));
            }
        }
        i += 1;
    }
    done.push(cur);
    proof {
        assert(s@.take(s.len() as int) =~= s@);
        assert(views(done@) =~= split_char(s@, sep));
    }
    done
}

/// The pieces of `s` between newline characters, in order.
pub fn split_lines(s: &Vec<char>) -> (r: Vec<Vec<char>>)
    ensures
        views(r@) == split_newlines(s@),
{
    split_on(s, '\n')
}

/// The lines of `s`, as `str::lines` yields them.
pub fn lines_of(s: &Vec<char>) -> (r: Vec<Vec<char>>)
    ensures
        views(r@) == text_lines(s@),
{
    let ps = split_lines(s);
    let ghost sp = split_newlines(s@);
    proof {
        lemma_split_nonempty(s@, '\n');
    }
    let n = ps.len();
    let mut r: Vec<Vec<char>> = Vec::new();
    let mut i: usize = 0;
    while i + 1 < n
        invariant
            n == ps.len() >= 1,
            views(ps@) == sp,
            sp == split_newlines(s@),
            i + 1 <= n,
            views(r@) == sp.take(i as int).map_values(|p: Seq<char>| strip_cr(p)),
        decreases n - i,
    {
        let p = &ps[i];
        let q = if p.len() > 0 && p[p.len() - 1] == '\r' {
            sub_chars(p, 0, p.len() - 1)
        } else {
            sub_chars(p, 0, p.len())
        };
        proof {
            assert(sp[i as int] == p@);
            assert(p@.subrange(0, p@.len() as int) =~= p@);
            if p@.len() > 0 {
                assert(p@.subrange(0, p@.len() - 1) =~= p@.drop_last());
            }
            assert(q@ == strip_cr(p@));
        }
        let ghost before = views(r@);
        r.push(q);
        proof {
            assert(views(r@) =~= before.push(q@));
            assert(sp.take(i + 1) =~= sp.take(i as int).push(sp[i as int]));
            assert(views(r@) =~= sp.take(i + 1).map_values(|p: Seq<char>| strip_cr(p)));
        }
        i += 1;
    }
    let last = &ps[n - 1];
    proof {
        assert(sp[n - 1] == last@);
        assert(sp.last() == last@);
    }
    if last.len() > 0 {
        r.push(sub_chars(last, 0, last.len()));
        proof {
            assert(last@.subrange(0, last@.len() as int) =~= last@);
            assert(views(r@) =~= sp.take(n - 1).map_values(|p: Seq<char>| strip_cr(p)).push(
                sp.last(),
            ));
        }
    }
    r
}

/// A `String` holding the characters of `cs`; calls `Iterator::collect`
/// into `String`, which std documents as concatenating the characters in
/// order.
#[verifier::external_body]
pub fn string_from_chars(cs: &[char]) -> (r: String)
    ensures
        r@ == cs@,
{
    cs.iter().collect()
}

/// The decimal digits of `n`.
pub fn decimal_string(n: usize) -> (r: String)
    ensures
        r@ == decimal(n as nat),
    decreases n,
{
    let d = (n % 10) as u8;
    let c = ((d + 48) as u8) as char;
    assert(c == digit_char((n % 10) as nat)) by {
        assert(((d + 48) as u8) == d + 48);
    }
    if n < 10 {
        let v = vec![c];
        string_from_chars(v.as_slice())
    } else {
        let mut r = decimal_string(n / 10);
        let v = vec![c];
        let t = string_from_chars(v.as_slice());
        r.append(t.as_str());
        proof {
            assert(r@ =~= decimal((n / 10) as nat).push(c));
        }
        r
    }
}

/// Whether `s` begins with `p`, and if so the rest of `s` after it.
pub fn strip_prefix_chars(s: &Vec<char>, p: &Vec<char>) -> (r: Option<Vec<char>>)
    ensures
        r is Some <==> (p@.len() <= s@.len() && s@.take(p@.len() as int) == p@),
        r matches Some(rest) ==> rest@ == s@.skip(p@.len() as int),
{
    if p.len() > s.len() {
        return None;
    }
    let mut i: usize = 0;
    while i < p.len()
        invariant
            i <= p.len() <= s.len(),
            forall|k: int| 0 <= k < i ==> s@[k] == p@[k],
        decreases p.len() - i,
    {
        if s[i] != p[i] {
            proof {
                assert(s@.take(p@.len() as int)[i as int] != p@[i as int]);
            }
            return None;
        }
        i += 1;
    }
    proof {
        assert(s@.take(p@.len() as int) =~= p@);
    }
    Some(sub_chars(s, p.len(), s.len()))
}

/// What `String::from_utf8_lossy` makes of a byte sequence: the text it
/// encodes, with each invalid sequence replaced by U+FFFD.
pub uninterp spec fn utf8_lossy(b: Seq<u8>) -> Seq<char>;

/// Decodes bytes as UTF-8 with `String::from_utf8_lossy`. The contract claims
/// that the result depends on the bytes alone and, as std documents, that
/// valid UTF-8 decodes unchanged.
#[verifier::external_body]
pub fn lossy_string(b: &[u8]) -> (r: String)
    ensures
        r@ == utf8_lossy(b@),
        valid_utf8(b@) ==> r@ == decode_utf8(b@),
{
    String::from_utf8_lossy(b).into_owned()
}

/// Words joined with single spaces, as `[&str]::join(" ")` joins them.
pub open spec fn join_words(ws: Seq<Seq<char>>) -> Seq<char>
    decreases ws.len(),
{
    if ws.len() == 0 {
        Seq::empty()
    } else if ws.len() == 1 {
        ws[0]
    } else {
        join_words(ws.drop_last()) + seq![' '] + ws.last()
    }
}

/// The views of a list of strings.
pub open spec fn str_views(v: Seq<String>) -> Seq<Seq<char>> {
    v.map_values(|s: String| s@)
}

/// The words joined with single spaces.
pub fn join_with_spaces(ws: &Vec<String>) -> (r: String)
    ensures
        r@ == join_words(str_views(ws@)),
{
    let mut r = String::new();
    let mut i: usize = 0;
    let space = vec![' '];
    let sp = string_from_chars(space.as_slice());
    while i < ws.len()
        invariant
            i <= ws.len(),
            sp@ == seq![' '],
            r@ == join_words(str_views(ws@).take(i as int)),
        decreases ws.len() - i,
    {
        proof {
            assert(str_views(ws@).take(i + 1).drop_last() =~= str_views(ws@).take(i as int));
        }
        if i > 0 {
            r.append(sp.as_str());
        }
        r.append(ws[i].as_str());
        proof {
            if i == 0 {
                assert(r@ =~= str_views(ws@).take(1)[0]);
            }
        }
        i += 1;
    }
    proof {
        assert(str_views(ws@).take(ws.len() as int) =~= str_views(ws@));
    }
    r
}

/// No sequence comes before itself.
pub proof fn lemma_lt_irreflexive(a: Seq<char>)
    ensures
        !seq_lt(a, a),
    decreases a.len(),
{
    if a.len() > 0 {
        lemma_lt_irreflexive(a.drop_first());
    }
}

/// The lexicographic order is transitive.
pub proof fn lemma_lt_transitive(a: Seq<char>, b: Seq<char>, c: Seq<char>)
    requires
        seq_lt(a, b),
        seq_lt(b, c),
    ensures
        seq_lt(a, c),
    decreases a.len(),
{
    if a.len() > 0 && b.len() > 0 && c.len() > 0 {
        if (a[0] as u32) == (b[0] as u32) && (b[0] as u32) == (c[0] as u32) {
            lemma_lt_transitive(a.drop_first(), b.drop_first(), c.drop_first());
        }
    }
}

/// Characters with the same scalar value are the same character.
proof fn lemma_char_eq(x: char, y: char)
    requires
        x as u32 == y as u32,
    ensures
        x == y,
{
}

/// Of two different sequences, one comes before the other.
pub proof fn lemma_lt_total(a: Seq<char>, b: Seq<char>)
    ensures
        a == b || seq_lt(a, b) || seq_lt(b, a),
    decreases a.len(),
{
    if a.len() > 0 && b.len() > 0 && (a[0] as u32) == (b[0] as u32) {
        lemma_lt_total(a.drop_first(), b.drop_first());
        lemma_char_eq(a[0], b[0]);
        if a.drop_first() == b.drop_first() {
            assert(a =~= seq![a[0]] + a.drop_first());
            assert(b =~= seq![b[0]] + b.drop_first());
        }
    } else if a.len() == 0 && b.len() == 0 {
        assert(a =~= b);
    }
}

/// "Not after" is transitive: if `b` is not before `a` and `c` not before
/// `b`, then `c` is not before `a`.
pub proof fn lemma_not_lt_transitive(a: Seq<char>, b: Seq<char>, c: Seq<char>)
    requires
        !seq_lt(b, a),
        !seq_lt(c, b),
    ensures
        !seq_lt(c, a),
{
    lemma_lt_total(a, b);
    if seq_lt(c, a) && seq_lt(a, b) {
        lemma_lt_transitive(c, a, b);
    }
}

/// Of two sequences, at most one comes before the other.
pub proof fn lemma_lt_asymmetric(a: Seq<char>, b: Seq<char>)
    requires
        seq_lt(a, b),
    ensures
        !seq_lt(b, a),
{
    if seq_lt(b, a) {
        lemma_lt_transitive(a, b, a);
        lemma_lt_irreflexive(a);
    }
}

} // verus!
