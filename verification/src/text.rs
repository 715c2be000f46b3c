//! Text as sequences of characters: the primitives that the rest of the library is written in.

use vstd::prelude::*;
use vstd::utf8::encode_utf8;

verus! {

/// `String::push` of the standard library appends the given character to the end of the string.
pub assume_specification[ String::push ](s: &mut String, c: char)
    ensures
        final(s)@ == old(s)@.push(c),
;

/// The number of bytes of the UTF-8 form of a text.
pub open spec fn byte_len(s: Seq<char>) -> nat {
    encode_utf8(s).len()
}

/// Two texts with the same UTF-8 form are the same text.
pub proof fn lemma_utf8_injective(a: Seq<char>, b: Seq<char>)
    requires
        encode_utf8(a) == encode_utf8(b),
    ensures
        a == b,
{
    vstd::utf8::encode_utf8_decode_utf8(a);
    vstd::utf8::encode_utf8_decode_utf8(b);
}

/// The characters of a text, in order.
pub fn chars_of(s: &str) -> (r: Vec<char>)
    ensures
        r@ == s@,
{
    let mut out: Vec<char> = Vec::new();
    for c in it: s.chars()
        invariant
            it.seq() == s@,
            out@ == s@.take(it.index()),
    {
        out.push(c);
    }
    out
}

/// The text made of the given characters.
pub fn text_of(v: &Vec<char>) -> (r: String)
    ensures
        r@ == v@,
{
    let mut out: String = String::new();
    let mut i: usize = 0;
    while i < v.len()
        invariant
            i <= v.len(),
            out@ == v@.take(i as int),
        decreases v.len() - i,
    {
        out.push(v[i]);
        i = i + 1;
    }
    assert(v@.take(i as int) == v@);
    out
}

/// Whether two byte strings hold the same bytes.
pub fn same_bytes(a: &[u8], b: &[u8]) -> (r: bool)
    ensures
        r == (a@ == b@),
{
    if a.len() != b.len() {
        return false;
    }
    let mut i: usize = 0;
    while i < a.len()
        invariant
            i <= a.len(),
            a.len() == b.len(),
            forall|k: int| 0 <= k < i ==> a@[k] == b@[k],
        decreases a.len() - i,
    {
        if a[i] != b[i] {
            return false;
        }
        i = i + 1;
    }
    assert(a@ =~= b@);
    true
}

/// Whether two texts are equal.
pub fn same(a: &str, b: &str) -> (r: bool)
    ensures
        r == (a@ == b@),
{
    let r = same_bytes(a.as_bytes(), b.as_bytes());
    proof {
        if r {
            lemma_utf8_injective(a@, b@);
        }
    }
    r
}

/// An optional text seen as an optional sequence of characters.
pub open spec fn opt_text(o: Option<String>) -> Option<Seq<char>> {
    match o {
        Some(s) => Some(s@),
        None => None,
    }
}

/// An optional borrowed text seen as an optional sequence of characters.
pub open spec fn opt_str(o: Option<&str>) -> Option<Seq<char>> {
    match o {
        Some(s) => Some(s@),
        None => None,
    }
}

/// A copy of an optional text.
pub fn copy_opt(o: &Option<String>) -> (r: Option<String>)
    ensures
        opt_text(r) == opt_text(*o),
{
    match o {
        Some(s) => Some(s.clone()),
        None => None,
    }
}

/// Whether an optional text holds exactly the given text.
pub fn opt_is(o: &Option<String>, s: &str) -> (r: bool)
    ensures
        r == (opt_text(*o) == Some(s@)),
{
    match o {
        Some(t) => same(t.as_str(), s),
        None => false,
    }
}

/// Two texts, one after the other.
pub fn join2(a: &str, b: &str) -> (r: String)
    ensures
        r@ == a@ + b@,
{
    let mut out: String = a.to_owned();
    out.append(b);
    out
}

/// Three texts, one after the other.
pub fn join3(a: &str, b: &str, c: &str) -> (r: String)
    ensures
        r@ == a@ + b@ + c@,
{
    let mut out: String = a.to_owned();
    out.append(b);
    out.append(c);
    out
}

/// The characters with the Unicode property White_Space.
pub open spec fn white_space(c: char) -> bool {
    let n = c as u32;
    ||| 0x9 <= n <= 0xd
    ||| n == 0x20
    ||| n == 0x85
    ||| n == 0xa0
    ||| n == 0x1680
    ||| 0x2000 <= n <= 0x200a
    ||| n == 0x2028
    ||| n == 0x2029
    ||| n == 0x202f
    ||| n == 0x205f
    ||| n == 0x3000
}

/// Whether a character is white space.
pub fn is_white_space(c: char) -> (r: bool)
    ensures
        r == white_space(c),
{
    let n: u32 = c as u32;
    (0x9 <= n && n <= 0xd) || n == 0x20 || n == 0x85 || n == 0xa0 || n == 0x1680 || (0x2000 <= n
        && n <= 0x200a) || n == 0x2028 || n == 0x2029 || n == 0x202f || n == 0x205f || n == 0x3000
}

/// The control characters: Unicode general category Cc.
pub open spec fn control(c: char) -> bool {
    let n = c as u32;
    n <= 0x1f || 0x7f <= n <= 0x9f
}

/// Whether a character is a control character.
pub fn is_control(c: char) -> (r: bool)
    ensures
        r == control(c),
{
    let n: u32 = c as u32;
    n <= 0x1f || (0x7f <= n && n <= 0x9f)
}

/// The ASCII letters and digits.
pub open spec fn ascii_alphanumeric(c: char) -> bool {
    let n = c as u32;
    0x30 <= n <= 0x39 || 0x41 <= n <= 0x5a || 0x61 <= n <= 0x7a
}

/// Whether a character is an ASCII letter or digit.
pub fn is_ascii_alphanumeric(c: char) -> (r: bool)
    ensures
        r == ascii_alphanumeric(c),
{
    let n: u32 = c as u32;
    (0x30 <= n && n <= 0x39) || (0x41 <= n && n <= 0x5a) || (0x61 <= n && n <= 0x7a)
}

/// A text without its leading white space.
pub open spec fn trim_start(s: Seq<char>) -> Seq<char>
    decreases s.len(),
{
    if s.len() > 0 && white_space(s[0]) {
        trim_start(s.drop_first())
    } else {
        s
    }
}

/// A text without its trailing white space.
pub open spec fn trim_end(s: Seq<char>) -> Seq<char>
    decreases s.len(),
{
    if s.len() > 0 && white_space(s.last()) {
        trim_end(s.drop_last())
    } else {
        s
    }
}

/// A text without its leading and trailing white space.
pub open spec fn trimmed(s: Seq<char>) -> Seq<char> {
    trim_end(trim_start(s))
}

/// Takes the white space off both ends of a text.
pub fn trim_chars(v: &Vec<char>) -> (r: Vec<char>)
    ensures
        r@ == trimmed(v@),
{
    let mut start: usize = 0;
    assert(v@.subrange(0, v@.len() as int) == v@);
    while start < v.len() && is_white_space(v[start])
        invariant
            start <= v.len(),
            trim_start(v@) == trim_start(v@.subrange(start as int, v@.len() as int)),
        decreases v.len() - start,
    {
        assert(v@.subrange(start as int, v@.len() as int).drop_first() == v@.subrange(
            start + 1,
            v@.len() as int,
        ));
        start = start + 1;
    }
    let ghost rest = v@.subrange(start as int, v@.len() as int);
    let mut end: usize = v.len();
    while start < end && is_white_space(v[end - 1])
        invariant
            start <= end <= v.len(),
            trim_end(rest) == trim_end(v@.subrange(start as int, end as int)),
        decreases end,
    {
        assert(v@.subrange(start as int, end as int).drop_last() == v@.subrange(
            start as int,
            end - 1,
        ));
        end = end - 1;
    }
    let mut out: Vec<char> = Vec::new();
    let mut i: usize = start;
    while i < end
        invariant
            start <= i <= end <= v.len(),
            out@ == v@.subrange(start as int, i as int),
        decreases end - i,
    {
        out.push(v[i]);
        i = i + 1;
    }
    out
}

/// Takes the white space off both ends of a text.
pub fn trim(s: &str) -> (r: String)
    ensures
        r@ == trimmed(s@),
{
    text_of(&trim_chars(&chars_of(s)))
}

/// Whether a text holds nothing but white space.
pub open spec fn blank(s: Seq<char>) -> bool {
    trimmed(s).len() == 0
}

/// Whether a text holds nothing but white space.
pub fn is_blank(s: &str) -> (r: bool)
    ensures
        r == blank(s@),
{
    trim_chars(&chars_of(s)).len() == 0
}

/// The first `n` characters of a text, or all of it if it is shorter.
pub open spec fn first_chars(s: Seq<char>, n: nat) -> Seq<char> {
    if s.len() <= n {
        s
    } else {
        s.take(n as int)
    }
}

/// Cuts a text off after `n` characters.
pub fn cut(v: &Vec<char>, n: usize) -> (r: Vec<char>)
    ensures
        r@ == first_chars(v@, n as nat),
{
    let mut out: Vec<char> = Vec::new();
    let mut i: usize = 0;
    while i < v.len() && i < n
        invariant
            i <= v.len(),
            i <= n,
            out@ == v@.take(i as int),
        decreases v.len() - i,
    {
        out.push(v[i]);
        i = i + 1;
    }
    out
}

/// The pieces of a text between the separators: a separator starts a new piece, any other
/// character extends the last one.
pub open spec fn split_at_any(s: Seq<char>, seps: Seq<char>) -> Seq<Seq<char>>
    decreases s.len(),
{
    if s.len() == 0 {
        seq![Seq::empty()]
    } else {
        let before = split_at_any(s.drop_last(), seps);
        if seps.contains(s.last()) {
            before.push(Seq::empty())
        } else {
            before.drop_last().push(before.last().push(s.last()))
        }
    }
}

/// A text has at least one piece.
pub proof fn lemma_split_nonempty(s: Seq<char>, seps: Seq<char>)
    ensures
        split_at_any(s, seps).len() >= 1,
    decreases s.len(),
{
    if s.len() > 0 {
        lemma_split_nonempty(s.drop_last(), seps);
    }
}

/// A text without separators is a single piece.
pub proof fn lemma_single_piece(s: Seq<char>, seps: Seq<char>)
    requires
        forall|i: int| 0 <= i < s.len() ==> !seps.contains(s[i]),
    ensures
        split_at_any(s, seps) =~= seq![s],
    decreases s.len(),
{
    if s.len() > 0 {
        let before = s.drop_last();
        assert forall|i: int| 0 <= i < before.len() implies !seps.contains(before[i]) by {
            assert(before[i] == s[i]);
        }
        lemma_single_piece(before, seps);
        assert(before.push(s.last()) == s);
        assert(split_at_any(before, seps).last() == before);
        assert(!seps.contains(s[s.len() - 1]));
    } else {
        assert(s =~= Seq::empty());
    }
}

/// Whether a character is one of those listed.
pub fn one_of(c: char, list: &Vec<char>) -> (r: bool)
    ensures
        r == list@.contains(c),
{
    let mut i: usize = 0;
    while i < list.len()
        invariant
            i <= list.len(),
            forall|k: int| 0 <= k < i ==> list@[k] != c,
        decreases list.len() - i,
    {
        if list[i] == c {
            return true;
        }
        i = i + 1;
    }
    false
}

/// The pieces of a vector of characters, as sequences.
pub open spec fn pieces(v: Seq<Vec<char>>) -> Seq<Seq<char>> {
    Seq::new(v.len(), |i: int| v[i]@)
}

/// Cuts a text at every one of the separators.
pub fn split(v: &Vec<char>, seps: &Vec<char>) -> (r: Vec<Vec<char>>)
    ensures
        pieces(r@) == split_at_any(v@, seps@),
        r@.len() >= 1,
{
    let mut done: Vec<Vec<char>> = Vec::new();
    let mut cur: Vec<char> = Vec::new();
    let mut i: usize = 0;
    assert(pieces(done@).push(cur@) =~= split_at_any(v@.take(0), seps@));
    while i < v.len()
        invariant
            i <= v.len(),
            pieces(done@).push(cur@) == split_at_any(v@.take(i as int), seps@),
        decreases v.len() - i,
    {
        let ghost before = pieces(done@).push(cur@);
        let ghost whole = v@.take(i + 1);
        assert(whole.drop_last() == v@.take(i as int));
        assert(before.drop_last() =~= pieces(done@));
        if one_of(v[i], seps) {
            let ghost old_done = done@;
            done.push(cur);
            assert(pieces(done@) =~= before);
            cur = Vec::new();
            assert(pieces(done@).push(cur@) =~= split_at_any(whole, seps@));
        } else {
            cur.push(v[i]);
            assert(pieces(done@).push(cur@) =~= split_at_any(whole, seps@));
        }
        i = i + 1;
    }
    assert(v@.take(i as int) == v@);
    let ghost parts = pieces(done@).push(cur@);
    done.push(cur);
    assert(pieces(done@) =~= parts);
    done
}

/// Whether `p` stands in `s` at position `i`.
pub open spec fn occurs_at(s: Seq<char>, p: Seq<char>, i: int) -> bool {
    0 <= i && i + p.len() <= s.len() && s.subrange(i, i + p.len()) == p
}

/// Whether `p` stands somewhere in `s`.
pub open spec fn contains_text(s: Seq<char>, p: Seq<char>) -> bool {
    exists|i: int| occurs_at(s, p, i)
}

/// Whether `s` begins with `p`.
pub open spec fn begins_with(s: Seq<char>, p: Seq<char>) -> bool {
    p.len() <= s.len() && s.take(p.len() as int) == p
}

/// Whether `s` ends with `p`.
pub open spec fn ends_in(s: Seq<char>, p: Seq<char>) -> bool {
    p.len() <= s.len() && s.skip(s.len() - p.len()) == p
}

/// Whether `p` stands in `s` at position `i`.
pub fn matches_at(s: &Vec<char>, p: &Vec<char>, i: usize) -> (r: bool)
    ensures
        r == occurs_at(s@, p@, i as int),
{
    if i > s.len() || p.len() > s.len() - i {
        return false;
    }
    let mut k: usize = 0;
    while k < p.len()
        invariant
            k <= p.len(),
            i + p.len() <= s.len(),
            forall|j: int| 0 <= j < k ==> s@[i + j] == p@[j],
        decreases p.len() - k,
    {
        if s[i + k] != p[k] {
            assert(s@.subrange(i as int, i + p@.len())[k as int] == s@[i + k]);
            return false;
        }
        k = k + 1;
    }
    assert(s@.subrange(i as int, i + p@.len()) =~= p@);
    true
}

/// The first position at or after `from` at which `p` stands in `s`.
pub fn find_from(s: &Vec<char>, p: &Vec<char>, from: usize) -> (r: Option<usize>)
    ensures
        match r {
            Some(i) => from <= i && occurs_at(s@, p@, i as int) && forall|j: int|
                from <= j < i ==> !occurs_at(s@, p@, j),
            None => forall|j: int| from <= j ==> !occurs_at(s@, p@, j),
        },
{
    let mut i: usize = from;
    while i <= s.len() && p.len() <= s.len() - i
        invariant
            from <= i,
            forall|j: int| from <= j < i ==> !occurs_at(s@, p@, j),
            i <= s.len() || i == from,
        decreases s.len() + 1 - i,
    {
        if matches_at(s, p, i) {
            return Some(i);
        }
        if i == s.len() {
            return None;
        }
        i = i + 1;
    }
    None
}

/// Whether `p` stands somewhere in `s`.
pub fn contains(s: &str, p: &str) -> (r: bool)
    ensures
        r == contains_text(s@, p@),
{
    find_from(&chars_of(s), &chars_of(p), 0).is_some()
}

/// Whether `s` begins with `p`.
pub fn starts_with(s: &str, p: &str) -> (r: bool)
    ensures
        r == begins_with(s@, p@),
{
    let r = matches_at(&chars_of(s), &chars_of(p), 0);
    assert(p@.len() <= s@.len() ==> s@.subrange(0, p@.len() as int) == s@.take(p@.len() as int));
    r
}

/// Whether `s` ends with `p`.
pub fn ends_with(s: &str, p: &str) -> (r: bool)
    ensures
        r == ends_in(s@, p@),
{
    let sc = chars_of(s);
    let pc = chars_of(p);
    if pc.len() > sc.len() {
        return false;
    }
    assert(s@.subrange(s@.len() - p@.len(), s@.len() as int) == s@.skip(s@.len() - p@.len()));
    matches_at(&sc, &pc, sc.len() - pc.len())
}

/// What follows `p` in `s`, if `s` begins with `p`.
pub open spec fn after_prefix(s: Seq<char>, p: Seq<char>) -> Option<Seq<char>> {
    if begins_with(s, p) {
        Some(s.skip(p.len() as int))
    } else {
        None
    }
}

/// The characters from position `from` on.
pub fn tail(v: &Vec<char>, from: usize) -> (r: Vec<char>)
    requires
        from <= v@.len(),
    ensures
        r@ == v@.skip(from as int),
{
    let mut out: Vec<char> = Vec::new();
    let mut i: usize = from;
    while i < v.len()
        invariant
            from <= i <= v.len(),
            out@ == v@.subrange(from as int, i as int),
        decreases v.len() - i,
    {
        out.push(v[i]);
        i = i + 1;
    }
    assert(v@.subrange(from as int, i as int) == v@.skip(from as int));
    out
}

/// What follows `p` in `s`, if `s` begins with `p`.
pub fn strip_prefix(s: &str, p: &str) -> (r: Option<String>)
    ensures
        opt_text(r) == after_prefix(s@, p@),
{
    let sc = chars_of(s);
    let pc = chars_of(p);
    assert(p@.len() <= s@.len() ==> s@.subrange(0, p@.len() as int) == s@.take(p@.len() as int));
    if matches_at(&sc, &pc, 0) {
        Some(text_of(&tail(&sc, pc.len())))
    } else {
        None
    }
}

/// A text in which every occurrence of `from`, taken from the left, is replaced by `to`.
pub open spec fn replaced(s: Seq<char>, from: Seq<char>, to: Seq<char>) -> Seq<char>
    decreases s.len(),
{
    if s.len() == 0 || from.len() == 0 {
        s
    } else if begins_with(s, from) {
        to + replaced(s.skip(from.len() as int), from, to)
    } else {
        seq![s[0]] + replaced(s.skip(1), from, to)
    }
}

/// Replaces every occurrence of `from` by `to`.
pub fn replace(s: &str, from: &str, to: &str) -> (r: String)
    requires
        from@.len() > 0,
    ensures
        r@ == replaced(s@, from@, to@),
{
    let sc = chars_of(s);
    let fc = chars_of(from);
    let mut out: String = String::new();
    let mut i: usize = 0;
    assert(s@.skip(0) == s@);
    while i < sc.len()
        invariant
            i <= sc.len(),
            sc@ == s@,
            fc@ == from@,
            from@.len() > 0,
            out@ + replaced(s@.skip(i as int), from@, to@) == replaced(s@, from@, to@),
        decreases sc.len() - i,
    {
        let ghost rest = s@.skip(i as int);
        let ghost old_out = out@;
        assert(fc@.len() <= rest.len() ==> rest.take(fc@.len() as int) == s@.subrange(
            i as int,
            i + fc@.len(),
        ));
        if matches_at(&sc, &fc, i) {
            out.append(to);
            i = i + fc.len();
            assert(rest.skip(from@.len() as int) == s@.skip(i as int));
            assert(out@ + replaced(s@.skip(i as int), from@, to@) == old_out + (to@ + replaced(
                s@.skip(i as int),
                from@,
                to@,
            )));
        } else {
            out.push(sc[i]);
            i = i + 1;
            assert(rest.skip(1) == s@.skip(i as int));
            assert(out@ + replaced(s@.skip(i as int), from@, to@) == old_out + (seq![rest[0]]
                + replaced(s@.skip(i as int), from@, to@)));
        }
    }
    assert(out@ + s@.skip(i as int) == out@);
    out
}

/// Whether every occurrence of `p` in `s` stands at `i` or later, and one stands at `i`.
pub open spec fn first_occurrence(s: Seq<char>, p: Seq<char>, i: int) -> bool {
    occurs_at(s, p, i) && forall|j: int| 0 <= j < i ==> !occurs_at(s, p, j)
}

/// A text in which the first occurrence of `from`, if there is one, is replaced by `to`.
pub open spec fn replaced_once(s: Seq<char>, from: Seq<char>, to: Seq<char>) -> Seq<char> {
    if contains_text(s, from) {
        let i = choose|i: int| first_occurrence(s, from, i);
        s.take(i) + to + s.skip(i + from.len())
    } else {
        s
    }
}

/// Replaces the first occurrence of `from` by `to`.
pub fn replace_once(s: &str, from: &str, to: &str) -> (r: String)
    ensures
        r@ == replaced_once(s@, from@, to@),
{
    let sc = chars_of(s);
    let fc = chars_of(from);
    match find_from(&sc, &fc, 0) {
        None => s.to_owned(),
        Some(i) => {
            assert(first_occurrence(s@, from@, i as int));
            let ghost j = choose|j: int| first_occurrence(s@, from@, j);
            assert(i == j);
            assert(i + fc@.len() <= sc.len());
            let mut out: String = text_of(&cut(&sc, i));
            out.append(to);
            out.append(text_of(&tail(&sc, i + fc.len())).as_str());
            out
        },
    }
}

/// Whether a text comes before another in the order of their characters' code points.
pub open spec fn comes_before(a: Seq<char>, b: Seq<char>) -> bool
    decreases a.len(),
{
    if b.len() == 0 {
        false
    } else if a.len() == 0 {
        true
    } else if a[0] == b[0] {
        comes_before(a.drop_first(), b.drop_first())
    } else {
        a[0] < b[0]
    }
}

/// The order of texts is that of a list: no text comes before itself, of two different ones one
/// comes first, and what comes before something comes before what follows that.
pub proof fn lemma_text_order(a: Seq<char>, b: Seq<char>, c: Seq<char>)
    ensures
        !comes_before(a, a),
        comes_before(a, b) ==> !comes_before(b, a),
        a == b || comes_before(a, b) || comes_before(b, a),
        comes_before(a, b) && comes_before(b, c) ==> comes_before(a, c),
    decreases a.len() + b.len() + c.len(),
{
    if a.len() > 0 {
        lemma_text_order(a.drop_first(), Seq::empty(), Seq::empty());
    }
    if a.len() > 0 && b.len() > 0 && c.len() > 0 {
        lemma_text_order(a.drop_first(), b.drop_first(), c.drop_first());
    } else if a.len() > 0 && b.len() > 0 {
        lemma_text_order(a.drop_first(), b.drop_first(), Seq::empty());
    }
    if a.len() > 0 && b.len() > 0 && a[0] == b[0] && a.drop_first() == b.drop_first() {
        assert(a =~= seq![a[0]] + a.drop_first());
        assert(b =~= seq![b[0]] + b.drop_first());
    }
    if a.len() == 0 && b.len() == 0 {
        assert(a =~= b);
    }
}

/// Whether a text comes before another.
pub fn less(a: &str, b: &str) -> (r: bool)
    ensures
        r == comes_before(a@, b@),
{
    let x = chars_of(a);
    let y = chars_of(b);
    let mut i: usize = 0;
    assert(a@.skip(0) == a@);
    assert(b@.skip(0) == b@);
    while i < x.len() && i < y.len()
        invariant
            x@ == a@,
            y@ == b@,
            i <= x.len(),
            i <= y.len(),
            comes_before(a@, b@) == comes_before(a@.skip(i as int), b@.skip(i as int)),
        decreases x.len() - i,
    {
        let (p, q): (char, char) = (x[i], y[i]);
        assert(a@.skip(i as int)[0] == p);
        assert(b@.skip(i as int)[0] == q);
        if p != q {
            return p < q;
        }
        assert(a@.skip(i as int).drop_first() == a@.skip(i + 1));
        assert(b@.skip(i as int).drop_first() == b@.skip(i + 1));
        i = i + 1;
    }
    i < y.len()
}

/// What stands before the first separator is the first piece, and the pieces of what follows it are
/// the others.
pub proof fn lemma_split_head(a: Seq<char>, c: char, b: Seq<char>, seps: Seq<char>)
    requires
        seps.contains(c),
        forall|i: int| 0 <= i < a.len() ==> !seps.contains(#[trigger] a[i]),
    ensures
        split_at_any(a + seq![c] + b, seps) == seq![a] + split_at_any(b, seps),
    decreases b.len(),
{
    let s = a + seq![c] + b;
    if b.len() == 0 {
        assert(s.drop_last() =~= a);
        assert(s.last() == c);
        lemma_single_piece(a, seps);
        assert(split_at_any(s, seps) =~= seq![a] + split_at_any(b, seps));
    } else {
        let front = b.drop_last();
        lemma_split_head(a, c, front, seps);
        lemma_split_nonempty(front, seps);
        assert(s.drop_last() =~= a + seq![c] + front);
        assert(s.last() == b.last());
        let before = split_at_any(s.drop_last(), seps);
        let tail = split_at_any(front, seps);
        assert(before == seq![a] + tail);
        assert(before.last() == tail.last());
        assert(before.drop_last() =~= seq![a] + tail.drop_last());
        assert(split_at_any(s, seps) =~= seq![a] + split_at_any(b, seps));
    }
}

/// White space around a text does not matter to what is left of it without; what is left begins and
/// ends with none, and a text that does so already is left as it is.
pub proof fn law_trimming(s: Seq<char>, c: char)
    ensures
        white_space(c) ==> trimmed(seq![c] + s) == trimmed(s) && trimmed(s + seq![c]) == trimmed(s),
        trimmed(s).len() > 0 ==> !white_space(trimmed(s)[0]) && !white_space(trimmed(s).last()),
        s.len() > 0 && !white_space(s[0]) && !white_space(s.last()) ==> trimmed(s) == s,
        s.len() == 0 ==> trimmed(s) == s,
{
    assert((seq![c] + s).drop_first() =~= s);
    lemma_trim_start_push(s, c);
    lemma_trim_ends(s);
    if white_space(c) {
        assert(s + seq![c] =~= s.push(c));
        if trim_start(s).len() > 0 {
            assert(trim_start(s).push(c).drop_last() =~= trim_start(s));
        }
    }
}

/// A character at the end does not matter to what is taken off the beginning.
proof fn lemma_trim_start_push(s: Seq<char>, c: char)
    ensures
        trim_start(s.push(c)) == if trim_start(s).len() > 0 || !white_space(c) {
            trim_start(s).push(c)
        } else {
            Seq::empty()
        },
    decreases s.len(),
{
    if s.len() == 0 {
        assert(s.push(c).drop_first() =~= Seq::empty());
        assert(trim_start(Seq::<char>::empty()) =~= Seq::empty());
        if !white_space(c) {
            assert(s.push(c) =~= trim_start(s).push(c));
        }
    } else if white_space(s[0]) {
        assert(s.push(c).drop_first() =~= s.drop_first().push(c));
        lemma_trim_start_push(s.drop_first(), c);
    }
}

/// What is left of a text has no white space at its ends.
proof fn lemma_trim_ends(s: Seq<char>)
    ensures
        trimmed(s).len() > 0 ==> !white_space(trimmed(s)[0]) && !white_space(trimmed(s).last()),
{
    lemma_trim_start_first(s);
    lemma_trim_end_last(trim_start(s));
}

proof fn lemma_trim_start_first(s: Seq<char>)
    ensures
        trim_start(s).len() > 0 ==> !white_space(trim_start(s)[0]),
    decreases s.len(),
{
    if s.len() > 0 && white_space(s[0]) {
        lemma_trim_start_first(s.drop_first());
    }
}

proof fn lemma_trim_end_last(s: Seq<char>)
    ensures
        trim_end(s).len() > 0 ==> !white_space(trim_end(s).last()) && trim_end(s)[0] == s[0],
        trim_end(s).len() <= s.len(),
    decreases s.len(),
{
    if s.len() > 0 && white_space(s.last()) {
        lemma_trim_end_last(s.drop_last());
    }
}

/// Cutting a text off keeps what stands first, in its order, and a text that is short enough whole.
pub proof fn law_cutting(s: Seq<char>, n: nat)
    ensures
        first_chars(s, n).len() <= n,
        s.len() <= n ==> first_chars(s, n) == s,
        s.len() >= n ==> first_chars(s, n).len() == n,
        forall|i: int| 0 <= i < first_chars(s, n).len() ==> first_chars(s, n)[i] == s[i],
{
}

/// What stands behind the last separator of a text is its last piece.
pub proof fn lemma_last_piece(a: Seq<char>, c: char, b: Seq<char>, seps: Seq<char>)
    requires
        seps.contains(c),
        forall|i: int| 0 <= i < b.len() ==> !seps.contains(#[trigger] b[i]),
    ensures
        split_at_any(a + seq![c] + b, seps).last() == b,
        split_at_any(a + seq![c] + b, seps).drop_last() == split_at_any(a, seps),
    decreases b.len(),
{
    let s = a + seq![c] + b;
    if b.len() == 0 {
        assert(s.drop_last() =~= a);
        assert(split_at_any(s, seps).drop_last() =~= split_at_any(a, seps));
        assert(b =~= Seq::empty());
    } else {
        let front = b.drop_last();
        assert forall|i: int| 0 <= i < front.len() implies !seps.contains(#[trigger] front[i]) by {
            assert(front[i] == b[i]);
        }
        lemma_last_piece(a, c, front, seps);
        assert(s.drop_last() =~= a + seq![c] + front);
        assert(s.last() == b[b.len() - 1]);
        assert(front.push(b.last()) =~= b);
        let before = split_at_any(s.drop_last(), seps);
        assert(split_at_any(s, seps).drop_last() =~= before.drop_last());
    }
}

/// A text begins with another exactly if it is that text and something behind it; it ends with
/// another exactly if it is something and that text behind it.
pub proof fn law_beginnings_and_ends(p: Seq<char>, t: Seq<char>, s: Seq<char>)
    ensures
        begins_with(p + t, p),
        after_prefix(p + t, p) == Some(t),
        begins_with(s, p) ==> s == p + s.skip(p.len() as int),
        !begins_with(s, p) ==> after_prefix(s, p) is None,
        ends_in(t + p, p),
        ends_in(s, p) ==> s == s.take(s.len() - p.len()) + p,
{
    assert((p + t).take(p.len() as int) =~= p);
    assert((p + t).skip(p.len() as int) =~= t);
    assert((t + p).skip((t + p).len() - p.len()) =~= p);
    if begins_with(s, p) {
        assert(s =~= s.take(p.len() as int) + s.skip(p.len() as int));
    }
    if ends_in(s, p) {
        assert(s =~= s.take(s.len() - p.len()) + s.skip(s.len() - p.len()));
    }
}

/// The space, the tab and the line breaks are white space, and so is the wide space; no visible
/// character of ASCII is.
pub proof fn law_white_space(c: char)
    ensures
        c == ' ' || c == '\t' || c == '\n' || c == '\r' || c == '\u{3000}' || c == '\u{a0}'
            ==> white_space(c),
        0x21 <= c as u32 <= 0x7e ==> !white_space(c),
        0x4e00 <= c as u32 <= 0x9fff ==> !white_space(c),
{
}

/// The letters and digits of ASCII.
pub proof fn law_letters_and_digits(c: char)
    ensures
        'a' <= c <= 'z' || 'A' <= c <= 'Z' || '0' <= c <= '9' <==> ascii_alphanumeric(c),
{
}

/// Texts are ordered by the first character in which they differ; a text comes before what it is the
/// beginning of.
pub proof fn law_the_order_of_texts(
    p: Seq<char>,
    a: char,
    x: Seq<char>,
    b: char,
    y: Seq<char>,
)
    requires
        a < b,
    ensures
        comes_before(p + seq![a] + x, p + seq![b] + y),
        !comes_before(p + seq![b] + y, p + seq![a] + x),
        comes_before(p, p + seq![a] + x),
        !comes_before(p, p),
    decreases p.len(),
{
    if p.len() > 0 {
        let q = p.drop_first();
        law_the_order_of_texts(q, a, x, b, y);
        assert((p + seq![a] + x).drop_first() =~= q + seq![a] + x);
        assert((p + seq![b] + y).drop_first() =~= q + seq![b] + y);
        assert((p + seq![a] + x)[0] == p[0] && (p + seq![b] + y)[0] == p[0]);
    } else {
        assert((p + seq![a] + x)[0] == a);
        assert((p + seq![b] + y)[0] == b);
    }
}

/// Only the first occurrence of a text is replaced, and what stands before and behind it stays.
pub proof fn law_the_first_occurrence_is_replaced(
    s: Seq<char>,
    from: Seq<char>,
    to: Seq<char>,
    i: int,
)
    requires
        0 <= i && i + from.len() <= s.len(),
        s.skip(i).take(from.len() as int) == from,
        forall|j: int| 0 <= j < i ==> #[trigger] s.skip(j).take(from.len() as int) != from,
    ensures
        replaced_once(s, from, to) == s.take(i) + to + s.skip(i + from.len()),
{
    let n = from.len() as int;
    assert(s.subrange(i, i + n) =~= s.skip(i).take(n));
    assert(occurs_at(s, from, i));
    assert forall|j: int| 0 <= j < i implies !occurs_at(s, from, j) by {
        assert(s.subrange(j, j + n) =~= s.skip(j).take(n));
    }
    assert(first_occurrence(s, from, i));
    let k = choose|k: int| first_occurrence(s, from, k);
    assert(occurs_at(s, from, k));
    assert(k == i);
}

/// A text in which nothing is to be replaced stays.
pub proof fn law_without_occurrence_nothing_changes(s: Seq<char>, from: Seq<char>, to: Seq<char>)
    requires
        forall|j: int|
            0 <= j && j + from.len() <= s.len() ==> #[trigger] s.skip(j).take(from.len() as int)
                != from,
    ensures
        replaced_once(s, from, to) == s,
        !contains_text(s, from),
{
    if contains_text(s, from) {
        let k = choose|k: int| occurs_at(s, from, k);
        assert(s.subrange(k, k + from.len()) =~= s.skip(k).take(from.len() as int));
    }
}

/// What stands in the middle of a text occurs in it.
pub proof fn lemma_occurs_between(a: Seq<char>, p: Seq<char>, b: Seq<char>)
    ensures
        contains_text(a + p + b, p),
{
    let s = a + p + b;
    let i = a.len() as int;
    assert(s.subrange(i, i + p.len()) =~= p);
    assert(occurs_at(s, p, i));
}

/// The control characters: the first 32, and those from 127 to 159.
pub proof fn law_control_characters(c: char)
    ensures
        control(c) <==> (c as u32) <= 31 || 127 <= (c as u32) <= 159,
{
}

} // verus!
