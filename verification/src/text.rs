//! Text as sequences of characters: decimal numbers, markdown escaping,
//! trimming, prefixes and joining.

use crate::outside::white_space;
use vstd::prelude::*;
use vstd::string::*;

verus! {

/// The views of the items of a sequence, in order.
pub open spec fn views<T: View>(s: Seq<T>) -> Seq<T::V> {
    Seq::new(s.len(), |i: int| s[i]@)
}

pub proof fn lemma_views_push<T: View>(s: Seq<T>, x: T)
    ensures
        views(s.push(x)) == views(s).push(x@),
{
    assert(views(s.push(x)) =~= views(s).push(x@));
}

/// The characters of a string, as a vector.
pub fn chars_of(s: &str) -> (v: Vec<char>)
    ensures
        v@ == s@,
{
    let mut v: Vec<char> = Vec::new();
    for c in it: s.chars()
        invariant
            it.seq() == s@,
            v@ == s@.take(it.index() as int),
    {
        assert(s@.take(it.index() + 1) =~= s@.take(it.index() as int).push(c));
        v.push(c);
    }
    assert(s@.take(s@.len() as int) =~= s@);
    v
}

/// Appends the characters `v[from..to]` to `out`.
pub fn append_chars(out: &mut String, v: &Vec<char>, from: usize, to: usize)
    requires
        from <= to <= v.len(),
    ensures
        final(out)@ == old(out)@ + v@.subrange(from as int, to as int),
{
    let mut i: usize = from;
    while i < to
        invariant
            from <= i <= to <= v.len(),
            out@ == old(out)@ + v@.subrange(from as int, i as int),
        decreases to - i,
    {
        out.push(v[i]);
        i += 1;
        assert(v@.subrange(from as int, i as int) =~= v@.subrange(from as int, i - 1).push(
            v@[i - 1],
        ));
    }
}

/// The decimal digit for `d`, for `0 <= d <= 9`.
pub open spec fn digit_char(d: int) -> char {
    if d == 0 {
        '0'
    } else if d == 1 {
        '1'
    } else if d == 2 {
        '2'
    } else if d == 3 {
        '3'
    } else if d == 4 {
        '4'
    } else if d == 5 {
        '5'
    } else if d == 6 {
        '6'
    } else if d == 7 {
        '7'
    } else if d == 8 {
        '8'
    } else {
        '9'
    }
}

/// The decimal digits of a natural number, most significant first, without
/// leading zeros.
pub open spec fn digits(n: nat) -> Seq<char>
    decreases n,
{
    if n < 10 {
        seq![digit_char(n as int)]
    } else {
        digits(n / 10).push(digit_char((n % 10) as int))
    }
}

/// An integer in decimal, with a minus sign where it is negative.
pub open spec fn decimal(i: int) -> Seq<char> {
    if i < 0 {
        seq!['-'] + digits((-i) as nat)
    } else {
        digits(i as nat)
    }
}

fn digit(d: u64) -> (c: char)
    requires
        d < 10,
    ensures
        c == digit_char(d as int),
{
    if d == 0 {
        '0'
    } else if d == 1 {
        '1'
    } else if d == 2 {
        '2'
    } else if d == 3 {
        '3'
    } else if d == 4 {
        '4'
    } else if d == 5 {
        '5'
    } else if d == 6 {
        '6'
    } else if d == 7 {
        '7'
    } else if d == 8 {
        '8'
    } else {
        '9'
    }
}

/// Appends `n` in decimal to `out`.
pub fn append_nat(out: &mut String, n: u64)
    ensures
        final(out)@ == old(out)@ + digits(n as nat),
{
    let mut low: Vec<char> = Vec::new();
    let mut m: u64 = n;
    while m >= 10
        invariant
            digits(n as nat) == digits(m as nat) + low@.reverse(),
        decreases m,
    {
        let ghost before = low@;
        low.push(digit(m % 10));
        assert(low@.reverse() =~= seq![digit_char((m % 10) as int)] + before.reverse());
        assert(digits(m as nat) == digits((m / 10) as nat).push(digit_char((m % 10) as int)));
        assert(digits((m / 10) as nat).push(digit_char((m % 10) as int)) + before.reverse()
            =~= digits((m / 10) as nat) + (seq![digit_char((m % 10) as int)] + before.reverse()));
        m = m / 10;
    }
    let ghost before = low@;
    low.push(digit(m));
    assert(low@.reverse() =~= seq![digit_char(m as int)] + before.reverse());
    let mut i: usize = low.len();
    while i > 0
        invariant
            i <= low.len(),
            digits(n as nat) == low@.reverse(),
            out@ == old(out)@ + low@.reverse().take(low.len() - i),
        decreases i,
    {
        i -= 1;
        out.push(low[i]);
        assert(low@.reverse().take(low.len() - i) =~= low@.reverse().take(low.len() - i - 1).push(
            low@[i as int],
        ));
    }
    assert(low@.reverse().take(low.len() as int) =~= low@.reverse());
}

/// Appends `n` in decimal to `out`, with a minus sign where it is negative.
pub fn append_int(out: &mut String, n: i64)
    ensures
        final(out)@ == old(out)@ + decimal(n as int),
{
    if n < 0 {
        out.push('-');
        let magnitude: u64 = (-(n as i128)) as u64;
        append_nat(out, magnitude);
        assert(old(out)@.push('-') + digits(magnitude as nat) =~= old(out)@ + (seq!['-'] + digits(
            magnitude as nat,
        )));
    } else {
        append_nat(out, n as u64);
    }
}

/// The characters that markdown reads as markup.
pub open spec fn is_markup(c: char) -> bool {
    c == '_' || c == '*' || c == '\\' || c == '[' || c == ']' || c == '-' || c == '<' || c == '>'
        || c == '`'
}

/// `s` with a backslash before each markup character.
pub open spec fn escaped(s: Seq<char>) -> Seq<char>
    decreases s.len(),
{
    if s.len() == 0 {
        Seq::empty()
    } else if is_markup(s.last()) {
        escaped(s.drop_last()).push('\\').push(s.last())
    } else {
        escaped(s.drop_last()).push(s.last())
    }
}

/// Escapes a text for markdown: each of `_ * \ [ ] - < >` and the backtick
/// gets a backslash in front; every other character stays as it is.
pub fn escape(v: &str) -> (r: String)
    ensures
        r@ == escaped(v@),
{
    let mut s = String::new();
    for c in it: v.chars()
        invariant
            it.seq() == v@,
            s@ == escaped(v@.take(it.index() as int)),
    {
        assert(v@.take(it.index() + 1).drop_last() =~= v@.take(it.index() as int));
        if c == '_' || c == '*' || c == '\\' || c == '[' || c == ']' || c == '-' || c == '<'
            || c == '>' || c == '`' {
            s.push('\\');
        }
        s.push(c);
    }
    assert(v@.take(v@.len() as int) =~= v@);
    s
}

/// `t` without the backslashes that escape a character: of each backslash
/// that is followed by a character, only that character stays.
pub open spec fn unescaped(t: Seq<char>) -> Seq<char>
    decreases t.len(),
{
    if t.len() == 0 {
        Seq::empty()
    } else if t[0] == '\\' && t.len() >= 2 {
        seq![t[1]] + unescaped(t.skip(2))
    } else {
        seq![t[0]] + unescaped(t.skip(1))
    }
}

proof fn lemma_escaped_prepend(c: char, s: Seq<char>)
    ensures
        escaped(seq![c] + s) == if is_markup(c) {
            seq!['\\', c] + escaped(s)
        } else {
            seq![c] + escaped(s)
        },
    decreases s.len(),
{
    let whole = seq![c] + s;
    if s.len() == 0 {
        assert(whole.drop_last() =~= Seq::<char>::empty());
        assert(escaped(whole.drop_last()) =~= Seq::<char>::empty());
        assert(escaped(s) =~= Seq::<char>::empty());
        if is_markup(c) {
            assert(escaped(whole) =~= seq!['\\', c] + escaped(s));
        } else {
            assert(escaped(whole) =~= seq![c] + escaped(s));
        }
    } else {
        lemma_escaped_prepend(c, s.drop_last());
        assert(whole.drop_last() =~= seq![c] + s.drop_last());
        assert(whole.last() == s.last());
        if is_markup(c) {
            assert(escaped(whole) =~= seq!['\\', c] + escaped(s));
        } else {
            assert(escaped(whole) =~= seq![c] + escaped(s));
        }
    }
}

/// Escaping loses nothing: taking the escaping backslashes out of an escaped
/// text gives the text back, whatever it holds.
pub proof fn lemma_escape_round_trip(s: Seq<char>)
    ensures
        unescaped(escaped(s)) == s,
    decreases s.len(),
{
    if s.len() == 0 {
    } else {
        let c = s[0];
        let rest = s.skip(1);
        assert(s =~= seq![c] + rest);
        lemma_escaped_prepend(c, rest);
        lemma_escape_round_trip(rest);
        let e = escaped(s);
        if is_markup(c) {
            assert(e.skip(2) =~= escaped(rest));
            assert(unescaped(e) =~= seq![c] + rest);
        } else {
            assert(e.skip(1) =~= escaped(rest));
            assert(c != '\\');
            assert(unescaped(e) =~= seq![c] + rest);
        }
    }
}

/// An escaped text is as long as the text and its markup characters together.
pub proof fn lemma_escaped_len(s: Seq<char>)
    ensures
        escaped(s).len() == s.len() + s.filter(|c: char| is_markup(c)).len(),
    decreases s.len(),
{
    reveal(Seq::filter);
    if s.len() > 0 {
        lemma_escaped_len(s.drop_last());
    }
}

/// `s` without the white space at its start.
pub open spec fn trimmed_start(s: Seq<char>) -> Seq<char>
    decreases s.len(),
{
    if s.len() > 0 && white_space(s[0]) {
        trimmed_start(s.skip(1))
    } else {
        s
    }
}

/// `s` without the white space at its end.
pub open spec fn trimmed_end(s: Seq<char>) -> Seq<char>
    decreases s.len(),
{
    if s.len() > 0 && white_space(s.last()) {
        trimmed_end(s.drop_last())
    } else {
        s
    }
}

/// `s` without the white space at its start and at its end.
pub open spec fn trimmed(s: Seq<char>) -> Seq<char> {
    trimmed_end(trimmed_start(s))
}

/// A text that neither starts nor ends with white space stays as it is.
pub proof fn lemma_trimmed_unchanged(s: Seq<char>)
    requires
        s.len() > 0 ==> !white_space(s[0]) && !white_space(s.last()),
    ensures
        trimmed(s) == s,
{
}

/// Trimming leaves no white space at either end, and what it leaves is a
/// part of the text.
pub proof fn lemma_trimmed_ends(s: Seq<char>)
    ensures
        trimmed(s).len() > 0 ==> !white_space(trimmed(s)[0]) && !white_space(trimmed(s).last()),
        exists|from: int, to: int|
            0 <= from <= to <= s.len() && trimmed(s) == #[trigger] s.subrange(from, to),
{
    lemma_trimmed_start_is_suffix(s);
    let from = choose|from: int| 0 <= from <= s.len() && trimmed_start(s) == s.skip(from);
    let rest = s.skip(from);
    lemma_trimmed_end_is_prefix(rest);
    let to = choose|to: int| 0 <= to <= rest.len() && trimmed_end(rest) == rest.take(to);
    assert(rest.take(to) =~= s.subrange(from, from + to));
    if trimmed(s).len() > 0 {
        assert(trimmed(s)[0] == rest[0]);
    }
}

proof fn lemma_trimmed_start_is_suffix(s: Seq<char>)
    ensures
        exists|from: int| 0 <= from <= s.len() && trimmed_start(s) == #[trigger] s.skip(from),
        trimmed_start(s).len() > 0 ==> !white_space(trimmed_start(s)[0]),
    decreases s.len(),
{
    if s.len() > 0 && white_space(s[0]) {
        let rest = s.skip(1);
        lemma_trimmed_start_is_suffix(rest);
        let from = choose|from: int|
            0 <= from <= rest.len() && trimmed_start(rest) == #[trigger] rest.skip(from);
        assert(rest.skip(from) =~= s.skip(from + 1));
    } else {
        assert(s.skip(0) =~= s);
    }
}

proof fn lemma_trimmed_end_is_prefix(s: Seq<char>)
    ensures
        exists|to: int| 0 <= to <= s.len() && trimmed_end(s) == #[trigger] s.take(to),
        trimmed_end(s).len() > 0 ==> !white_space(trimmed_end(s).last()) && trimmed_end(s)[0]
            == s[0],
    decreases s.len(),
{
    if s.len() > 0 && white_space(s.last()) {
        let front = s.drop_last();
        lemma_trimmed_end_is_prefix(front);
        let to = choose|to: int|
            0 <= to <= front.len() && trimmed_end(front) == #[trigger] front.take(to);
        assert(front.take(to) =~= s.take(to));
    } else {
        assert(s.take(s.len() as int) =~= s);
    }
}

/// Given for each character of a text whether it is white space, the part
/// of the text that trimming keeps: it starts at the first character that is
/// not white space and ends behind the last. Where all is white space, the
/// part is the empty one at the end.
pub fn trim_bounds(white: &Vec<bool>) -> (r: (usize, usize))
    ensures
        r.0 <= r.1 <= white.len(),
        forall|i: int| 0 <= i < r.0 ==> white[i],
        forall|i: int| r.1 <= i < white.len() ==> white[i],
        r.0 < r.1 ==> !white[r.0 as int] && !white[r.1 - 1],
        r.0 == r.1 ==> r.0 == white.len(),
{
    let mut from: usize = 0;
    while from < white.len() && white[from]
        invariant
            from <= white.len(),
            forall|i: int| 0 <= i < from ==> white[i],
        decreases white.len() - from,
    {
        from += 1;
    }
    let mut to: usize = white.len();
    while to > from && white[to - 1]
        invariant
            from <= to <= white.len(),
            forall|i: int| to <= i < white.len() ==> white[i],
        decreases to,
    {
        to -= 1;
    }
    (from, to)
}

proof fn lemma_trimmed_start(s: Seq<char>, from: int)
    requires
        0 <= from <= s.len(),
        forall|i: int| 0 <= i < from ==> white_space(s[i]),
        from < s.len() ==> !white_space(s[from]),
    ensures
        trimmed_start(s) == s.skip(from),
    decreases from,
{
    if from == 0 {
        assert(s.skip(0) =~= s);
    } else {
        let rest = s.skip(1);
        assert forall|i: int| 0 <= i < from - 1 implies white_space(rest[i]) by {
            assert(rest[i] == s[i + 1]);
        }
        lemma_trimmed_start(rest, from - 1);
        assert(rest.skip(from - 1) =~= s.skip(from));
    }
}

proof fn lemma_trimmed_end(s: Seq<char>, to: int)
    requires
        0 <= to <= s.len(),
        forall|i: int| to <= i < s.len() ==> white_space(s[i]),
        to > 0 ==> !white_space(s[to - 1]),
    ensures
        trimmed_end(s) == s.take(to),
    decreases s.len() - to,
{
    if to == s.len() {
        assert(s.take(to) =~= s);
    } else {
        let front = s.drop_last();
        lemma_trimmed_end(front, to);
        assert(front.take(to) =~= s.take(to));
    }
}

/// Appends `s`, without the white space around it, to `out`.
pub fn append_trimmed(out: &mut String, s: &str)
    ensures
        final(out)@ == old(out)@ + trimmed(s@),
{
    let v = chars_of(s);
    let mut white: Vec<bool> = Vec::new();
    let mut i: usize = 0;
    while i < v.len()
        invariant
            i <= v.len(),
            white.len() == i,
            forall|k: int| 0 <= k < i ==> #[trigger] white[k] == white_space(v[k]),
        decreases v.len() - i,
    {
        white.push(v[i].is_whitespace());
        i += 1;
    }
    let (from, to) = trim_bounds(&white);
    proof {
        assert forall|k: int| 0 <= k < from implies white_space(v@[k]) by {
            assert(white[k] == white_space(v[k]));
        }
        if from < v.len() {
            assert(white[from as int] == white_space(v[from as int]));
        }
        lemma_trimmed_start(v@, from as int);
        let rest = v@.skip(from as int);
        assert forall|k: int| to - from <= k < rest.len() implies white_space(rest[k]) by {
            assert(rest[k] == v@[k + from]);
            assert(white[k + from] == white_space(v[k + from]));
        }
        if to > from {
            assert(rest[to - from - 1] == v@[to - 1]);
            assert(white[to - 1] == white_space(v[to - 1]));
        }
        lemma_trimmed_end(rest, to - from);
        assert(rest.take(to - from) =~= v@.subrange(from as int, to as int));
    }
    append_chars(out, &v, from, to);
}

/// Whether two texts hold the same characters.
pub fn same_text(a: &str, b: &str) -> (r: bool)
    ensures
        r == (a@ == b@),
{
    let x = chars_of(a);
    let y = chars_of(b);
    if x.len() != y.len() {
        return false;
    }
    let mut i: usize = 0;
    while i < x.len()
        invariant
            i <= x.len(),
            x.len() == y.len(),
            x@ == a@,
            y@ == b@,
            x@.take(i as int) == y@.take(i as int),
        decreases x.len() - i,
    {
        if x[i] != y[i] {
            assert(a@[i as int] != b@[i as int]);
            return false;
        }
        assert(x@.take(i + 1) =~= x@.take(i as int).push(x@[i as int]));
        assert(y@.take(i + 1) =~= y@.take(i as int).push(y@[i as int]));
        i += 1;
    }
    assert(x@.take(x.len() as int) =~= x@);
    assert(y@.take(y.len() as int) =~= y@);
    true
}

/// What follows `prefix` in `s`, where `s` begins with it.
pub fn strip_prefix(s: &str, prefix: &str) -> (r: Option<String>)
    ensures
        r is Some == prefix@.is_prefix_of(s@),
        r matches Some(rest) ==> rest@ == s@.skip(prefix@.len() as int),
{
    let x = chars_of(s);
    let p = chars_of(prefix);
    if p.len() > x.len() {
        return None;
    }
    let mut i: usize = 0;
    while i < p.len()
        invariant
            i <= p.len() <= x.len(),
            x@ == s@,
            p@ == prefix@,
            x@.take(i as int) == p@.take(i as int),
        decreases p.len() - i,
    {
        if x[i] != p[i] {
            assert(s@.subrange(0, prefix@.len() as int)[i as int] != prefix@[i as int]);
            return None;
        }
        assert(x@.take(i + 1) =~= x@.take(i as int).push(x@[i as int]));
        assert(p@.take(i + 1) =~= p@.take(i as int).push(p@[i as int]));
        i += 1;
    }
    assert(p@.take(p.len() as int) =~= p@);
    assert(x@.take(p.len() as int) =~= x@.subrange(0, p.len() as int));
    let mut rest = String::new();
    append_chars(&mut rest, &x, p.len(), x.len());
    assert(rest@ =~= s@.skip(prefix@.len() as int));
    Some(rest)
}

/// Whether `s` begins with `prefix`.
pub fn has_prefix(s: &str, prefix: &str) -> (r: bool)
    ensures
        r == prefix@.is_prefix_of(s@),
{
    strip_prefix(s, prefix).is_some()
}

/// The items of `items` in order, with `sep` between each two neighbours.
pub open spec fn joined(items: Seq<Seq<char>>, sep: Seq<char>) -> Seq<char>
    decreases items.len(),
{
    if items.len() == 0 {
        Seq::empty()
    } else if items.len() == 1 {
        items[0]
    } else {
        joined(items.drop_last(), sep) + sep + items.last()
    }
}

/// Appends the items of `items`, with `sep` between each two neighbours.
pub fn append_joined(out: &mut String, items: &[&str], sep: &str)
    ensures
        final(out)@ == old(out)@ + joined(views(items@), sep@),
{
    let mut i: usize = 0;
    while i < items.len()
        invariant
            i <= items.len(),
            out@ == old(out)@ + joined(views(items@.take(i as int)), sep@),
        decreases items.len() - i,
    {
        let ghost done = views(items@.take(i as int));
        if i > 0 {
            out.append(sep);
        }
        out.append(items[i]);
        i += 1;
        let ghost now = views(items@.take(i as int));
        assert(now.drop_last() =~= done);
        assert(now.last() == items@[i - 1]@);
        assert(out@ =~= old(out)@ + joined(now, sep@));
    }
    assert(items@.take(items.len() as int) =~= items@);
}

/// Whether one of `items` is the text `x`.
pub fn contains_text(items: &Vec<String>, x: &str) -> (r: bool)
    ensures
        r == views(items@).contains(x@),
{
    let mut i: usize = 0;
    while i < items.len()
        invariant
            i <= items.len(),
            forall|k: int| 0 <= k < i ==> items@[k]@ != x@,
        decreases items.len() - i,
    {
        if same_text(items[i].as_str(), x) {
            assert(views(items@)[i as int] == x@);
            return true;
        }
        i += 1;
    }
    assert forall|k: int| 0 <= k < views(items@).len() implies views(items@)[k] != x@ by {}
    false
}

/// The parts up to and with the `k`th, one after the other, are the parts
/// before it followed by the `k`th.
pub proof fn lemma_flatten_next(parts: Seq<Seq<char>>, k: int)
    requires
        0 <= k < parts.len(),
    ensures
        parts.take(k + 1).flatten() == parts.take(k).flatten() + parts[k],
{
    assert(parts.take(k + 1) =~= parts.take(k).push(parts[k]));
    parts.take(k).lemma_flatten_push(parts[k]);
}

/// Of the first `i + 1` items those that meet `keep` are those of the first
/// `i`, and the next item where it meets `keep`.
pub proof fn lemma_filter_next<T>(s: Seq<T>, keep: spec_fn(T) -> bool, i: int)
    requires
        0 <= i < s.len(),
    ensures
        s.take(i + 1).filter(keep) == if keep(s[i]) {
            s.take(i).filter(keep).push(s[i])
        } else {
            s.take(i).filter(keep)
        },
{
    reveal(Seq::filter);
    assert(s.take(i + 1).drop_last() =~= s.take(i));
}

/// How many of `items` are the text `x`.
pub open spec fn occurrences(items: Seq<Seq<char>>, x: Seq<char>) -> nat
    decreases items.len(),
{
    if items.len() == 0 {
        0
    } else if items.last() == x {
        occurrences(items.drop_last(), x) + 1
    } else {
        occurrences(items.drop_last(), x)
    }
}

/// A text that is among the items occurs at least once, and any other not at
/// all.
pub proof fn lemma_occurrences_of_member(items: Seq<Seq<char>>, x: Seq<char>)
    ensures
        items.contains(x) <==> occurrences(items, x) >= 1,
    decreases items.len(),
{
    if items.len() > 0 {
        let front = items.drop_last();
        lemma_occurrences_of_member(front, x);
        if items.contains(x) {
            let k = choose|k: int| 0 <= k < items.len() && items[k] == x;
            if k < front.len() {
                assert(front[k] == x);
            }
        }
        if front.contains(x) {
            let k = choose|k: int| 0 <= k < front.len() && front[k] == x;
            assert(items[k] == x);
        }
        if items.last() == x {
            assert(items[items.len() - 1] == x);
        }
    }
}

/// Appends the texts of `items`, with `sep` between each two neighbours.
pub fn append_joined_texts(out: &mut String, items: &Vec<String>, sep: &str)
    ensures
        final(out)@ == old(out)@ + joined(views(items@), sep@),
{
    let mut i: usize = 0;
    while i < items.len()
        invariant
            i <= items.len(),
            out@ == old(out)@ + joined(views(items@.take(i as int)), sep@),
        decreases items.len() - i,
    {
        let ghost done = views(items@.take(i as int));
        if i != 0 {
            out.append(sep);
        }
        out.append(items[i].as_str());
        i += 1;
        let ghost now = views(items@.take(i as int));
        assert(now.drop_last() =~= done);
        assert(now.last() == items@[i - 1]@);
        assert(out@ =~= old(out)@ + joined(now, sep@));
    }
    assert(items@.take(items.len() as int) =~= items@);
}

} // verus!
