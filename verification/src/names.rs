//! Names and dates: what is cut off them, and what is made of the answers of a geocoder.

use vstd::prelude::*;
use crate::json::{
    elements, lemma_array, lemma_filter_take, member, text_member, text_or, views, Json, JsonV,
};
use crate::text::{
    byte_len, chars_of, control, cut, first_chars, is_control, opt_str, pieces,
    lemma_single_piece, same, split, split_at_any, text_of, trim_chars, trimmed,
};

verus! {

/// The characters that an emoji field may hold: no control characters, no angle brackets.
pub open spec fn em_allowed() -> spec_fn(char) -> bool {
    |c: char| !control(c) && c != '<' && c != '>'
}

/// The characters that a message may hold: no control characters but the line feed.
pub open spec fn text_allowed() -> spec_fn(char) -> bool {
    |c: char| c == '\n' || !control(c)
}

/// An emoji field made harmless: what it may hold, and eight characters at most.
pub open spec fn clean_em(s: Seq<char>) -> Seq<char> {
    first_chars(s.filter(em_allowed()), 8)
}

/// Makes an emoji field harmless.
pub fn sanitize_em(s: &str) -> (r: String)
    ensures
        r@ == clean_em(s@),
{
    let v = chars_of(s);
    let mut kept: Vec<char> = Vec::new();
    let mut i: usize = 0;
    assert(kept@ =~= v@.take(0).filter(em_allowed())) by {
        reveal(Seq::filter);
    }
    while i < v.len()
        invariant
            i <= v.len(),
            kept@ == v@.take(i as int).filter(em_allowed()),
        decreases v.len() - i,
    {
        proof {
            lemma_filter_take(v@, em_allowed(), i as int);
        }
        let c: char = v[i];
        if !is_control(c) && c != '<' && c != '>' {
            kept.push(c);
        }
        i = i + 1;
    }
    assert(v@.take(i as int) == v@);
    text_of(&cut(&kept, 8))
}

/// A message made harmless: what it may hold, cut off after `max` characters, without white space
/// at its ends.
pub open spec fn clean_text(s: Seq<char>, max: nat) -> Seq<char> {
    trimmed(first_chars(s.filter(text_allowed()), max))
}

/// Makes a message harmless.
pub fn sanitize_text(s: &str, max: usize) -> (r: String)
    ensures
        r@ == clean_text(s@, max as nat),
{
    let v = chars_of(s);
    let mut kept: Vec<char> = Vec::new();
    let mut i: usize = 0;
    assert(kept@ =~= v@.take(0).filter(text_allowed())) by {
        reveal(Seq::filter);
    }
    while i < v.len()
        invariant
            i <= v.len(),
            kept@ == v@.take(i as int).filter(text_allowed()),
        decreases v.len() - i,
    {
        proof {
            lemma_filter_take(v@, text_allowed(), i as int);
        }
        let c: char = v[i];
        if c == '\n' || !is_control(c) {
            kept.push(c);
        }
        i = i + 1;
    }
    assert(v@.take(i as int) == v@);
    text_of(&trim_chars(&cut(&kept, max)))
}

/// What is left of a text without the white space around it is a part of it.
pub proof fn lemma_trimmed_is_part(s: Seq<char>)
    ensures
        exists|i: int, j: int| 0 <= i <= j <= s.len() && trimmed(s) == #[trigger] s.subrange(i, j),
{
    lemma_trim_start_is_suffix(s);
    let i = choose|i: int|
        0 <= i <= s.len() && crate::text::trim_start(s) == #[trigger] s.subrange(
            i,
            s.len() as int,
        );
    let rest = s.subrange(i, s.len() as int);
    lemma_trim_end_is_prefix(rest);
    let j = choose|j: int|
        0 <= j <= rest.len() && crate::text::trim_end(rest) == #[trigger] rest.subrange(0, j);
    assert(rest.subrange(0, j) =~= s.subrange(i, i + j));
}

proof fn lemma_trim_start_is_suffix(s: Seq<char>)
    ensures
        exists|i: int|
            0 <= i <= s.len() && crate::text::trim_start(s) == #[trigger] s.subrange(
                i,
                s.len() as int,
            ),
    decreases s.len(),
{
    if s.len() > 0 && crate::text::white_space(s[0]) {
        let t = s.drop_first();
        lemma_trim_start_is_suffix(t);
        let i = choose|i: int|
            0 <= i <= t.len() && crate::text::trim_start(t) == #[trigger] t.subrange(
                i,
                t.len() as int,
            );
        assert(t.subrange(i, t.len() as int) =~= s.subrange(i + 1, s.len() as int));
    } else {
        assert(s.subrange(0, s.len() as int) =~= s);
    }
}

proof fn lemma_trim_end_is_prefix(s: Seq<char>)
    ensures
        exists|j: int|
            0 <= j <= s.len() && crate::text::trim_end(s) == #[trigger] s.subrange(0, j),
    decreases s.len(),
{
    if s.len() > 0 && crate::text::white_space(s.last()) {
        let t = s.drop_last();
        lemma_trim_end_is_prefix(t);
        let j = choose|j: int|
            0 <= j <= t.len() && crate::text::trim_end(t) == #[trigger] t.subrange(0, j);
        assert(t.subrange(0, j) =~= s.subrange(0, j));
    } else {
        assert(s.subrange(0, s.len() as int) =~= s);
    }
}

/// A cleaned emoji field has at most eight characters, none of them a control character or an
/// angle bracket.
pub proof fn law_clean_em_is_harmless(s: Seq<char>)
    ensures
        clean_em(s).len() <= 8,
        forall|i: int|
            0 <= i < clean_em(s).len() ==> !control(#[trigger] clean_em(s)[i]) && clean_em(s)[i]
                != '<' && clean_em(s)[i] != '>',
{
    let kept = s.filter(em_allowed());
    assert forall|i: int| 0 <= i < clean_em(s).len() implies !control(#[trigger] clean_em(s)[i])
        && clean_em(s)[i] != '<' && clean_em(s)[i] != '>' by {
        s.lemma_filter_pred(em_allowed(), i);
        assert(clean_em(s)[i] == kept[i]);
    }
}

/// A cleaned message keeps within its limit and holds no control character but the line feed.
pub proof fn law_clean_text_is_harmless(s: Seq<char>, max: nat)
    ensures
        clean_text(s, max).len() <= max,
        forall|i: int|
            0 <= i < clean_text(s, max).len() ==> (#[trigger] clean_text(s, max)[i]) == '\n'
                || !control(clean_text(s, max)[i]),
{
    let kept = s.filter(text_allowed());
    let short = first_chars(kept, max);
    lemma_trimmed_is_part(short);
    let (a, b) = choose|a: int, b: int|
        0 <= a <= b <= short.len() && trimmed(short) == #[trigger] short.subrange(a, b);
    assert forall|i: int| 0 <= i < clean_text(s, max).len() implies (#[trigger] clean_text(
        s,
        max,
    )[i]) == '\n' || !control(clean_text(s, max)[i]) by {
        s.lemma_filter_pred(text_allowed(), a + i);
        assert(clean_text(s, max)[i] == kept[a + i]);
    }
}

/// The ends of names that say what kind of administrative area they are of, for grouping trips.
pub open spec fn group_suffix(c: char) -> bool {
    c == '都' || c == '府' || c == '県' || c == '省' || c == '市' || c == '区' || c == '區' || c
        == '縣' || c == '县' || c == '町' || c == '村'
}

/// The ends of names that say what kind of administrative area they are of, for naming cities.
pub open spec fn city_suffix(c: char) -> bool {
    c == '都' || c == '府' || c == '県' || c == '省' || c == '市' || c == '縣' || c == '县'
}

/// The name under which trips to a region are grouped: that of the region, or of the city if the
/// region is unknown; a name of more than two characters loses its administrative suffix.
pub open spec fn group_name(region: Seq<char>, city: Seq<char>) -> Seq<char> {
    let base = if trimmed(region).len() > 0 {
        trimmed(region)
    } else {
        trimmed(city)
    };
    if base.len() > 2 && group_suffix(base.last()) {
        base.drop_last()
    } else {
        base
    }
}

/// The name under which trips to a region are grouped.
pub fn trip_group_name(region: &str, city: &str) -> (r: String)
    ensures
        r@ == group_name(region@, city@),
{
    let of_region = trim_chars(&chars_of(region));
    let mut base: Vec<char> = if of_region.len() > 0 {
        of_region
    } else {
        trim_chars(&chars_of(city))
    };
    if base.len() > 2 {
        let c: char = base[base.len() - 1];
        if c == '都' || c == '府' || c == '県' || c == '省' || c == '市' || c == '区' || c == '區'
            || c == '縣' || c == '县' || c == '町' || c == '村' {
            let ghost whole = base@;
            base.pop();
            assert(base@ =~= whole.drop_last());
        }
    }
    text_of(&base)
}

/// The name of a city: a ward takes the name of its region, where that is known; a name of more
/// than two characters loses its administrative suffix.
pub open spec fn city_name(city: Seq<char>, region: Seq<char>) -> Seq<char> {
    let c = trimmed(city);
    let ward = c.len() > 0 && (c.last() == '区' || c.last() == '區');
    let base = if ward && trimmed(region).len() > 0 {
        trimmed(region)
    } else {
        c
    };
    if base.len() > 2 && city_suffix(base.last()) {
        base.drop_last()
    } else {
        base
    }
}

/// The name of a city.
pub fn normalize_city(city: &str, region: &str) -> (r: String)
    ensures
        r@ == city_name(city@, region@),
{
    let c = trim_chars(&chars_of(city));
    let of_region = trim_chars(&chars_of(region));
    let ward: bool = c.len() > 0 && (c[c.len() - 1] == '区' || c[c.len() - 1] == '區');
    let mut base: Vec<char> = if ward && of_region.len() > 0 {
        of_region
    } else {
        c
    };
    if base.len() > 2 {
        let e: char = base[base.len() - 1];
        if e == '都' || e == '府' || e == '県' || e == '省' || e == '市' || e == '縣' || e == '县' {
            let ghost whole = base@;
            base.pop();
            assert(base@ =~= whole.drop_last());
        }
    }
    text_of(&base)
}

/// Names of one or two characters are not cut, and none is cut down to fewer than two.
pub proof fn law_short_names_stay(city: Seq<char>, region: Seq<char>)
    ensures
        trimmed(region).len() == 0 && 0 < trimmed(city).len() <= 2 ==> city_name(city, region)
            == trimmed(city) && group_name(region, city) == trimmed(city),
        0 < trimmed(region).len() <= 2 ==> group_name(region, city) == trimmed(region),
        trimmed(city).len() >= 2 && (trimmed(region).len() == 0 || trimmed(region).len() >= 2)
            ==> city_name(city, region).len() >= 2,
{
}

/// All wards of a region are one city.
pub proof fn law_wards_are_one_city(a: Seq<char>, b: Seq<char>, region: Seq<char>)
    requires
        trimmed(region).len() > 0,
        trimmed(a).len() > 0 && (trimmed(a).last() == '区' || trimmed(a).last() == '區'),
        trimmed(b).len() > 0 && (trimmed(b).last() == '区' || trimmed(b).last() == '區'),
    ensures
        city_name(a, region) == city_name(b, region),
{
}

/// The Japanese prefectures by ISO 3166-2 code.
pub open spec fn prefecture(iso: Seq<char>) -> Option<Seq<char>> {
    if iso == "JP-01"@ {
        Some("北海道"@)
    } else if iso == "JP-02"@ {
        Some("青森"@)
    } else if iso == "JP-03"@ {
        Some("岩手"@)
    } else if iso == "JP-04"@ {
        Some("宫城"@)
    } else if iso == "JP-05"@ {
        Some("秋田"@)
    } else if iso == "JP-06"@ {
        Some("山形"@)
    } else if iso == "JP-07"@ {
        Some("福岛"@)
    } else if iso == "JP-08"@ {
        Some("茨城"@)
    } else if iso == "JP-09"@ {
        Some("栃木"@)
    } else if iso == "JP-10"@ {
        Some("群马"@)
    } else if iso == "JP-11"@ {
        Some("埼玉"@)
    } else if iso == "JP-12"@ {
        Some("千叶"@)
    } else if iso == "JP-13"@ {
        Some("东京"@)
    } else if iso == "JP-14"@ {
        Some("神奈川"@)
    } else if iso == "JP-15"@ {
        Some("新潟"@)
    } else if iso == "JP-16"@ {
        Some("富山"@)
    } else if iso == "JP-17"@ {
        Some("石川"@)
    } else if iso == "JP-18"@ {
        Some("福井"@)
    } else if iso == "JP-19"@ {
        Some("山梨"@)
    } else if iso == "JP-20"@ {
        Some("长野"@)
    } else if iso == "JP-21"@ {
        Some("岐阜"@)
    } else if iso == "JP-22"@ {
        Some("静冈"@)
    } else if iso == "JP-23"@ {
        Some("爱知"@)
    } else if iso == "JP-24"@ {
        Some("三重"@)
    } else if iso == "JP-25"@ {
        Some("滋贺"@)
    } else if iso == "JP-26"@ {
        Some("京都"@)
    } else if iso == "JP-27"@ {
        Some("大阪"@)
    } else if iso == "JP-28"@ {
        Some("兵库"@)
    } else if iso == "JP-29"@ {
        Some("奈良"@)
    } else if iso == "JP-30"@ {
        Some("和歌山"@)
    } else if iso == "JP-31"@ {
        Some("鸟取"@)
    } else if iso == "JP-32"@ {
        Some("岛根"@)
    } else if iso == "JP-33"@ {
        Some("冈山"@)
    } else if iso == "JP-34"@ {
        Some("广岛"@)
    } else if iso == "JP-35"@ {
        Some("山口"@)
    } else if iso == "JP-36"@ {
        Some("德岛"@)
    } else if iso == "JP-37"@ {
        Some("香川"@)
    } else if iso == "JP-38"@ {
        Some("爱媛"@)
    } else if iso == "JP-39"@ {
        Some("高知"@)
    } else if iso == "JP-40"@ {
        Some("福冈"@)
    } else if iso == "JP-41"@ {
        Some("佐贺"@)
    } else if iso == "JP-42"@ {
        Some("长崎"@)
    } else if iso == "JP-43"@ {
        Some("熊本"@)
    } else if iso == "JP-44"@ {
        Some("大分"@)
    } else if iso == "JP-45"@ {
        Some("宫崎"@)
    } else if iso == "JP-46"@ {
        Some("鹿儿岛"@)
    } else if iso == "JP-47"@ {
        Some("冲绳"@)
    } else {
        None
    }
}

/// The Japanese prefecture of an ISO 3166-2 code.
pub fn jp_pref_name(iso: &str) -> (r: Option<&'static str>)
    ensures
        opt_str(r) == prefecture(iso@),
{
    if same(iso, "JP-01") {
        Some("北海道")
    } else if same(iso, "JP-02") {
        Some("青森")
    } else if same(iso, "JP-03") {
        Some("岩手")
    } else if same(iso, "JP-04") {
        Some("宫城")
    } else if same(iso, "JP-05") {
        Some("秋田")
    } else if same(iso, "JP-06") {
        Some("山形")
    } else if same(iso, "JP-07") {
        Some("福岛")
    } else if same(iso, "JP-08") {
        Some("茨城")
    } else if same(iso, "JP-09") {
        Some("栃木")
    } else if same(iso, "JP-10") {
        Some("群马")
    } else if same(iso, "JP-11") {
        Some("埼玉")
    } else if same(iso, "JP-12") {
        Some("千叶")
    } else if same(iso, "JP-13") {
        Some("东京")
    } else if same(iso, "JP-14") {
        Some("神奈川")
    } else if same(iso, "JP-15") {
        Some("新潟")
    } else if same(iso, "JP-16") {
        Some("富山")
    } else if same(iso, "JP-17") {
        Some("石川")
    } else if same(iso, "JP-18") {
        Some("福井")
    } else if same(iso, "JP-19") {
        Some("山梨")
    } else if same(iso, "JP-20") {
        Some("长野")
    } else if same(iso, "JP-21") {
        Some("岐阜")
    } else if same(iso, "JP-22") {
        Some("静冈")
    } else if same(iso, "JP-23") {
        Some("爱知")
    } else if same(iso, "JP-24") {
        Some("三重")
    } else if same(iso, "JP-25") {
        Some("滋贺")
    } else if same(iso, "JP-26") {
        Some("京都")
    } else if same(iso, "JP-27") {
        Some("大阪")
    } else if same(iso, "JP-28") {
        Some("兵库")
    } else if same(iso, "JP-29") {
        Some("奈良")
    } else if same(iso, "JP-30") {
        Some("和歌山")
    } else if same(iso, "JP-31") {
        Some("鸟取")
    } else if same(iso, "JP-32") {
        Some("岛根")
    } else if same(iso, "JP-33") {
        Some("冈山")
    } else if same(iso, "JP-34") {
        Some("广岛")
    } else if same(iso, "JP-35") {
        Some("山口")
    } else if same(iso, "JP-36") {
        Some("德岛")
    } else if same(iso, "JP-37") {
        Some("香川")
    } else if same(iso, "JP-38") {
        Some("爱媛")
    } else if same(iso, "JP-39") {
        Some("高知")
    } else if same(iso, "JP-40") {
        Some("福冈")
    } else if same(iso, "JP-41") {
        Some("佐贺")
    } else if same(iso, "JP-42") {
        Some("长崎")
    } else if same(iso, "JP-43") {
        Some("熊本")
    } else if same(iso, "JP-44") {
        Some("大分")
    } else if same(iso, "JP-45") {
        Some("宫崎")
    } else if same(iso, "JP-46") {
        Some("鹿儿岛")
    } else if same(iso, "JP-47") {
        Some("冲绳")
    } else {
        None
    }
}

/// The separators of the parts of a date.
pub open spec fn date_seps() -> Seq<char> {
    seq!['.', '-', '/']
}

/// A date down to the month: `2026.06.19` and `2026-06-19` become `2026.06`; a year alone stays a
/// year; what does not begin with a year of four bytes stays as it is.
pub open spec fn month_of(s: Seq<char>) -> Seq<char> {
    let parts = split_at_any(s, date_seps());
    if byte_len(parts[0]) == 4 {
        if parts.len() >= 2 && parts[1].len() > 0 {
            parts[0] + seq!['.'] + parts[1]
        } else {
            parts[0]
        }
    } else {
        s
    }
}

/// Cuts a date down to the month.
pub fn trunc_ym(s: &str) -> (r: String)
    ensures
        r@ == month_of(s@),
{
    let seps: Vec<char> = vec!['.', '-', '/'];
    assert(seps@ =~= date_seps());
    let parts = split(&chars_of(s), &seps);
    let ghost all = pieces(parts@);
    assert(all[0] == parts@[0]@);
    let year: String = text_of(&parts[0]);
    if year.as_str().as_bytes().len() != 4 {
        return s.to_owned();
    }
    if parts.len() >= 2 {
        assert(all[1] == parts@[1]@);
        if parts[1].len() > 0 {
            let mut out: String = year;
            out.push('.');
            out.append(text_of(&parts[1]).as_str());
            assert(out@ =~= all[0] + seq!['.'] + all[1]);
            return out;
        }
    }
    year
}

/// The pieces of a text hold no separators.
pub proof fn lemma_pieces_are_clean(s: Seq<char>, seps: Seq<char>, i: int, k: int)
    requires
        0 <= i < split_at_any(s, seps).len(),
        0 <= k < split_at_any(s, seps)[i].len(),
    ensures
        !seps.contains(split_at_any(s, seps)[i][k]),
    decreases s.len(),
{
    if s.len() > 0 {
        let before = split_at_any(s.drop_last(), seps);
        crate::text::lemma_split_nonempty(s.drop_last(), seps);
        let all = split_at_any(s, seps);
        if i < before.len() - 1 || seps.contains(s.last()) {
            if i < before.len() {
                lemma_pieces_are_clean(s.drop_last(), seps, i, k);
            }
        } else if k < before[i].len() {
            lemma_pieces_are_clean(s.drop_last(), seps, i, k);
        }
    }
}

/// Two pieces with a separator between them are two pieces.
pub proof fn lemma_two_pieces(a: Seq<char>, c: char, b: Seq<char>, seps: Seq<char>)
    requires
        seps.contains(c),
        forall|i: int| 0 <= i < a.len() ==> !seps.contains(a[i]),
        forall|i: int| 0 <= i < b.len() ==> !seps.contains(b[i]),
    ensures
        split_at_any(a + seq![c] + b, seps) =~= seq![a, b],
    decreases b.len(),
{
    let s = a + seq![c] + b;
    if b.len() == 0 {
        assert(s =~= a.push(c));
        assert(s.drop_last() =~= a);
        lemma_single_piece(a, seps);
        assert(b =~= Seq::empty());
    } else {
        let b1 = b.drop_last();
        assert forall|i: int| 0 <= i < b1.len() implies !seps.contains(b1[i]) by {
            assert(b1[i] == b[i]);
        }
        lemma_two_pieces(a, c, b1, seps);
        assert(s.drop_last() =~= a + seq![c] + b1);
        assert(s.last() == b[b.len() - 1]);
        assert(b1.push(b.last()) =~= b);
        let before = split_at_any(s.drop_last(), seps);
        assert(before =~= seq![a, b1]);
        assert(before.drop_last() =~= seq![a]);
        assert(before.last() == b1);
    }
}

/// Of a date that begins with a year, no day is left; and cutting it down again changes nothing.
pub proof fn law_no_day_is_left(s: Seq<char>)
    ensures
        byte_len(split_at_any(s, date_seps())[0]) == 4 ==> split_at_any(
            month_of(s),
            date_seps(),
        ).len() <= 2,
        month_of(month_of(s)) == month_of(s),
{
    let seps = date_seps();
    let parts = split_at_any(s, seps);
    crate::text::lemma_split_nonempty(s, seps);
    if byte_len(parts[0]) == 4 {
        let y = parts[0];
        assert forall|i: int| 0 <= i < y.len() implies !seps.contains(y[i]) by {
            lemma_pieces_are_clean(s, seps, 0, i);
        }
        if parts.len() >= 2 && parts[1].len() > 0 {
            let m = parts[1];
            assert forall|i: int| 0 <= i < m.len() implies !seps.contains(m[i]) by {
                lemma_pieces_are_clean(s, seps, 1, i);
            }
            assert(seps[0] == '.');
            lemma_two_pieces(y, '.', m, seps);
        } else {
            lemma_single_piece(y, seps);
        }
    }
}

/// The first of the named members that is a text.
pub open spec fn picked(a: JsonV, keys: Seq<Seq<char>>) -> Option<Seq<char>>
    decreases keys.len(),
{
    if keys.len() == 0 {
        None
    } else {
        match text_member(a, keys[0]) {
            Some(s) => Some(s),
            None => picked(a, keys.drop_first()),
        }
    }
}

/// The first of the named members that is a text, or the empty text.
pub open spec fn picked_or_empty(a: JsonV, keys: Seq<Seq<char>>) -> Seq<char> {
    match picked(a, keys) {
        Some(s) => s,
        None => Seq::empty(),
    }
}

/// The names of the members that are looked at.
pub open spec fn key_names(keys: Seq<&str>) -> Seq<Seq<char>> {
    Seq::new(keys.len(), |i: int| keys[i]@)
}

/// The first of the named members that is a text, or the empty text.
fn pick(a: &Json, keys: &Vec<&str>) -> (r: String)
    ensures
        r@ == picked_or_empty(a@, key_names(keys@)),
{
    let ghost all = key_names(keys@);
    assert(all.skip(0) == all);
    let mut i: usize = 0;
    while i < keys.len()
        invariant
            i <= keys.len(),
            all == key_names(keys@),
            picked(a@, all) == picked(a@, all.skip(i as int)),
        decreases keys.len() - i,
    {
        assert(all.skip(i as int)[0] == keys@[i as int]@);
        assert(all.skip(i as int).drop_first() == all.skip(i + 1));
        match a.get_str(keys[i]) {
            Some(s) => return s.to_owned(),
            None => {},
        }
        i = i + 1;
    }
    String::new()
}

/// The names of a position.
#[derive(Debug, PartialEq, Eq)]
pub struct AddressNames {
    pub city: String,
    pub name: String,
    pub country: String,
    pub region: String,
}

/// What [`AddressNames`] mean.
#[verifier::ext_equal]
pub struct AddressNamesV {
    pub city: Seq<char>,
    pub name: Seq<char>,
    pub country: Seq<char>,
    pub region: Seq<char>,
}

impl View for AddressNames {
    type V = AddressNamesV;

    open spec fn view(&self) -> AddressNamesV {
        AddressNamesV {
            city: self.city@,
            name: self.name@,
            country: self.country@,
            region: self.region@,
        }
    }
}

/// The region of an address: its state or province, else the prefecture of its ISO 3166-2 code.
pub open spec fn address_region(a: JsonV) -> Seq<char> {
    let named = picked_or_empty(a, seq!["state"@, "province"@, "region"@]);
    if named.len() > 0 {
        named
    } else {
        match text_member(a, "ISO3166-2-lvl4"@) {
            Some(iso) => match prefecture(iso) {
                Some(p) => p,
                None => named,
            },
            None => named,
        }
    }
}

/// The names of an address, as a geocoder writes it.
pub open spec fn names_of_address(a: JsonV) -> AddressNamesV {
    let region = address_region(a);
    let city = city_name(
        picked_or_empty(a, seq!["city"@, "town"@, "county"@, "state"@, "country"@]),
        region,
    );
    let spot = picked_or_empty(
        a,
        seq![
            "tourism"@,
            "attraction"@,
            "leisure"@,
            "building"@,
            "road"@,
            "suburb"@,
            "neighbourhood"@,
        ],
    );
    let name = trimmed(
        split_at_any(
            if spot.len() > 0 {
                spot
            } else {
                city
            },
            seq![';'],
        )[0],
    );
    AddressNamesV {
        city,
        name: if name.len() > 0 {
            name
        } else {
            "新地点"@
        },
        country: picked_or_empty(a, seq!["country"@]),
        region,
    }
}

/// The names in the answer of a reverse geocoder; none if it holds no address.
pub fn reverse_geocode(answer: &Json) -> (r: Option<AddressNames>)
    ensures
        match r {
            Some(n) => member(answer@, "address"@) matches Some(a) && n@ == names_of_address(a),
            None => member(answer@, "address"@) is None,
        },
        r matches Some(n) ==> {
            &&& member(answer@, "address"@) matches Some(a)
            &&& text_member(a, "state"@) matches Some(s) ==> s.len() > 0 ==> n.region@ == s
            &&& text_member(a, "state"@) is None ==> (text_member(a, "province"@) matches Some(p)
                ==> p.len() > 0 ==> n.region@ == p)
            &&& text_member(a, "state"@) is None && text_member(a, "province"@) is None ==> (
            text_member(a, "region"@) matches Some(g) ==> g.len() > 0 ==> n.region@ == g)
        },
{
    let a = match answer.get("address") {
        Some(a) => a,
        None => return None,
    };
    let city_keys: Vec<&str> = vec!["city", "town", "county", "state", "country"];
    assert(key_names(city_keys@) =~= seq!["city"@, "town"@, "county"@, "state"@, "country"@]);
    let raw_city = pick(a, &city_keys);
    let region_keys: Vec<&str> = vec!["state", "province", "region"];
    assert(key_names(region_keys@) =~= seq!["state"@, "province"@, "region"@]);
    let mut region = pick(a, &region_keys);
    if region.as_str().is_empty() {
        match a.get_str("ISO3166-2-lvl4") {
            Some(iso) => {
                match jp_pref_name(iso) {
                    Some(p) => {
                        region = p.to_owned();
                    },
                    None => {},
                }
            },
            None => {},
        }
    }
    let city = normalize_city(raw_city.as_str(), region.as_str());
    let spot_keys: Vec<&str> = vec![
        "tourism",
        "attraction",
        "leisure",
        "building",
        "road",
        "suburb",
        "neighbourhood",
    ];
    assert(key_names(spot_keys@) =~= seq![
        "tourism"@,
        "attraction"@,
        "leisure"@,
        "building"@,
        "road"@,
        "suburb"@,
        "neighbourhood"@,
    ]);
    let spot = pick(a, &spot_keys);
    let country_keys: Vec<&str> = vec!["country"];
    assert(key_names(country_keys@) =~= seq!["country"@]);
    let country = pick(a, &country_keys);
    let name = first_variant(
        if spot.as_str().is_empty() {
            city.as_str()
        } else {
            spot.as_str()
        },
        ';',
    );
    let name = if name.as_str().is_empty() {
        "新地点".to_owned()
    } else {
        name
    };
    proof {
        law_the_state_is_the_region(a@);
    }
    Some(AddressNames { city, name, country, region })
}

/// What stands before the first separator, without the white space around it.
fn first_variant(s: &str, sep: char) -> (r: String)
    ensures
        r@ == trimmed(split_at_any(s@, seq![sep])[0]),
{
    let seps: Vec<char> = vec![sep];
    assert(seps@ =~= seq![sep]);
    let parts = split(&chars_of(s), &seps);
    assert(pieces(parts@)[0] == parts@[0]@);
    text_of(&trim_chars(&parts[0]))
}

/// A place that a geocoder found. Its position is given as the texts it came in.
#[derive(Debug, PartialEq, Eq)]
pub struct GeoHit {
    pub name: String,
    pub lat: String,
    pub lng: String,
    pub display: String,
    pub city: String,
    pub country: String,
}

/// What a [`GeoHit`] means.
#[verifier::ext_equal]
pub struct GeoHitV {
    pub name: Seq<char>,
    pub lat: Seq<char>,
    pub lng: Seq<char>,
    pub display: Seq<char>,
    pub city: Seq<char>,
    pub country: Seq<char>,
}

impl View for GeoHit {
    type V = GeoHitV;

    open spec fn view(&self) -> GeoHitV {
        GeoHitV {
            name: self.name@,
            lat: self.lat@,
            lng: self.lng@,
            display: self.display@,
            city: self.city@,
            country: self.country@,
        }
    }
}

/// One entry of the answer of a geocoder; none if it has no position.
pub open spec fn geo_hit(item: JsonV) -> Option<GeoHitV> {
    match (text_member(item, "lat"@), text_member(item, "lon"@)) {
        (Some(lat), Some(lng)) => {
            let display = text_or(item, "display_name"@, Seq::empty());
            let named = text_or(item, "name"@, Seq::empty());
            Some(
                GeoHitV {
                    name: if named.len() > 0 {
                        named
                    } else {
                        trimmed(split_at_any(display, seq![','])[0])
                    },
                    lat,
                    lng,
                    display,
                    city: match member(item, "address"@) {
                        Some(a) => picked_or_empty(
                            a,
                            seq![
                                "city"@,
                                "town"@,
                                "village"@,
                                "county"@,
                                "state_district"@,
                                "state"@,
                            ],
                        ),
                        None => Seq::empty(),
                    },
                    country: match member(item, "address"@) {
                        Some(a) => text_or(a, "country"@, Seq::empty()),
                        None => Seq::empty(),
                    },
                },
            )
        },
        _ => None,
    }
}

/// One entry of the answer of a geocoder.
pub fn geocode_item(item: &Json) -> (r: Option<GeoHit>)
    ensures
        match r {
            Some(h) => geo_hit(item@) == Some(h@),
            None => geo_hit(item@) is None,
        },
{
    proof {
        reveal_strlit("");
        assert(""@ =~= Seq::<char>::empty());
    }
    let lat = match item.get_str("lat") {
        Some(s) => s.to_owned(),
        None => return None,
    };
    let lng = match item.get_str("lon") {
        Some(s) => s.to_owned(),
        None => return None,
    };
    let display = item.get_str_or("display_name", "").to_owned();
    let named = item.get_str_or("name", "");
    let name = if named.is_empty() {
        first_variant(display.as_str(), ',')
    } else {
        named.to_owned()
    };
    let keys: Vec<&str> = vec!["city", "town", "village", "county", "state_district", "state"];
    assert(key_names(keys@) =~= seq![
        "city"@,
        "town"@,
        "village"@,
        "county"@,
        "state_district"@,
        "state"@,
    ]);
    let (city, country): (String, String) = match item.get("address") {
        Some(a) => (pick(a, &keys), a.get_str_or("country", "").to_owned()),
        None => (String::new(), String::new()),
    };
    Some(GeoHit { name, lat, lng, display, city, country })
}

/// The entries of the answer of a geocoder that have a position, in order.
pub open spec fn geo_hits(items: Seq<JsonV>) -> Seq<GeoHitV>
    decreases items.len(),
{
    if items.len() == 0 {
        Seq::empty()
    } else {
        match geo_hit(items.last()) {
            Some(h) => geo_hits(items.drop_last()).push(h),
            None => geo_hits(items.drop_last()),
        }
    }
}

/// The entries of the answer of a geocoder; an answer that is no list has none.
pub fn geocode(answer: &Json) -> (r: Vec<GeoHit>)
    ensures
        views(r@) == match answer@ {
            JsonV::Array(items) => geo_hits(items),
            _ => Seq::empty(),
        },
{
    let mut out: Vec<GeoHit> = Vec::new();
    match answer {
        Json::Array(v) => {
            proof {
                lemma_array(*v);
            }
            let ghost items = elements(v@);
            assert(views(out@) =~= geo_hits(items.take(0)));
            let mut i: usize = 0;
            while i < v.len()
                invariant
                    i <= v.len(),
                    items == elements(v@),
                    views(out@) == geo_hits(items.take(i as int)),
                decreases v.len() - i,
            {
                let ghost before = views(out@);
                assert(items.take(i + 1).drop_last() == items.take(i as int));
                assert(items.take(i + 1).last() == v@[i as int]@);
                match geocode_item(&v[i]) {
                    Some(h) => {
                        let ghost hit = h@;
                        out.push(h);
                        assert(views(out@) =~= before.push(hit));
                    },
                    None => {},
                }
                i = i + 1;
            }
            assert(items.take(i as int) == items);
        },
        _ => {
            assert(views(out@) =~= Seq::empty());
        },
    }
    out
}

/// The first of the named members that is a text is the one that is picked.
proof fn lemma_picked(a: JsonV, keys: Seq<Seq<char>>, i: int)
    requires
        0 <= i <= keys.len(),
        forall|j: int| 0 <= j < i ==> text_member(a, #[trigger] keys[j]) is None,
        i < keys.len() ==> text_member(a, keys[i]) is Some,
    ensures
        picked(a, keys) == if i < keys.len() {
            text_member(a, keys[i])
        } else {
            None
        },
    decreases keys.len(),
{
    if keys.len() > 0 && i > 0 {
        assert(text_member(a, keys[0]) is None);
        let rest = keys.drop_first();
        assert forall|j: int| 0 <= j < i - 1 implies text_member(a, #[trigger] rest[j]) is None by {
            assert(rest[j] == keys[j + 1]);
        }
        lemma_picked(a, rest, i - 1);
    }
}

/// The region of an address is its state; without a state its province, and without that its
/// region. Only where there is none of these, or it is empty, does the code of the prefecture tell.
pub proof fn law_the_state_is_the_region(a: JsonV)
    ensures
        ({
            let r = names_of_address(a).region;
            let (state, province, region) = (
                text_member(a, "state"@),
                text_member(a, "province"@),
                text_member(a, "region"@),
            );
            &&& state matches Some(s) ==> s.len() > 0 ==> r == s
            &&& state is None ==> (province matches Some(p) ==> p.len() > 0 ==> r == p)
            &&& state is None && province is None ==> (region matches Some(g) ==> g.len() > 0 ==> r
                == g)
            &&& state is None && province is None && region is None ==> match text_member(
                a,
                "ISO3166-2-lvl4"@,
            ) {
                Some(iso) => prefecture(iso) is Some ==> Some(r) == prefecture(iso),
                None => r.len() == 0,
            }
        }),
{
    let keys = seq!["state"@, "province"@, "region"@];
    if text_member(a, "state"@) is Some {
        lemma_picked(a, keys, 0);
    } else if text_member(a, "province"@) is Some {
        lemma_picked(a, keys, 1);
    } else if text_member(a, "region"@) is Some {
        lemma_picked(a, keys, 2);
    } else {
        lemma_picked(a, keys, 3);
    }
}

/// Photographs of one state belong to one trip, whatever their cities and spots are.
pub proof fn law_one_state_is_one_trip(a: JsonV, b: JsonV)
    requires
        text_member(a, "state"@) == text_member(b, "state"@),
        text_member(a, "state"@) matches Some(s) && trimmed(s).len() > 0,
    ensures
        group_name(names_of_address(a).region, names_of_address(a).city) == group_name(
            names_of_address(b).region,
            names_of_address(b).city,
        ),
{
    let s = text_member(a, "state"@)->0;
    lemma_trimmed_is_part(s);
    assert(s.len() > 0);
    law_the_state_is_the_region(a);
    law_the_state_is_the_region(b);
}

/// The city of an address is what it calls its city, or else its town, county, state or country,
/// brought to its short form; and its country is what it calls its country.
pub proof fn law_the_city_of_an_address(a: JsonV, t: Seq<char>)
    ensures
        ({
            ||| (text_member(a, "city"@) == Some(t))
            ||| (text_member(a, "city"@) is None && text_member(a, "town"@) == Some(t))
            ||| (text_member(a, "city"@) is None && text_member(a, "town"@) is None
                && text_member(a, "county"@) == Some(t))
            ||| (text_member(a, "city"@) is None && text_member(a, "town"@) is None
                && text_member(a, "county"@) is None && text_member(a, "state"@) == Some(t))
            ||| (text_member(a, "city"@) is None && text_member(a, "town"@) is None
                && text_member(a, "county"@) is None && text_member(a, "state"@) is None
                && text_member(a, "country"@) == Some(t))
        }) ==> names_of_address(a).city == city_name(t, names_of_address(a).region),
        text_member(a, "country"@) matches Some(c) ==> names_of_address(a).country == c,
        text_member(a, "country"@) is None ==> names_of_address(a).country.len() == 0,
{
    let keys = seq!["city"@, "town"@, "county"@, "state"@, "country"@];
    if text_member(a, "city"@) is Some {
        lemma_picked(a, keys, 0);
    } else if text_member(a, "town"@) is Some {
        lemma_picked(a, keys, 1);
    } else if text_member(a, "county"@) is Some {
        lemma_picked(a, keys, 2);
    } else if text_member(a, "state"@) is Some {
        lemma_picked(a, keys, 3);
    } else if text_member(a, "country"@) is Some {
        lemma_picked(a, keys, 4);
    }
    let only = seq!["country"@];
    if text_member(a, "country"@) is Some {
        lemma_picked(a, only, 0);
    } else {
        lemma_picked(a, only, 1);
    }
}

/// A position is named after the sight at it, or else the attraction, the leisure ground, the
/// building, the road, the suburb or the neighbourhood; of several variants of the name the first
/// counts. Where there is none of these, it is named after its city, and without that it is just a
/// new place.
pub proof fn law_the_name_of_an_address(a: JsonV, t: Seq<char>, x: Seq<char>, y: Seq<char>)
    ensures
        ({
            ||| (text_member(a, "tourism"@) == Some(t))
            ||| (text_member(a, "tourism"@) is None && text_member(a, "attraction"@) == Some(t))
            ||| (text_member(a, "tourism"@) is None && text_member(a, "attraction"@) is None
                && text_member(a, "leisure"@) == Some(t))
            ||| (text_member(a, "tourism"@) is None && text_member(a, "attraction"@) is None
                && text_member(a, "leisure"@) is None && text_member(a, "building"@) == Some(t))
            ||| (text_member(a, "tourism"@) is None && text_member(a, "attraction"@) is None
                && text_member(a, "leisure"@) is None && text_member(a, "building"@) is None
                && text_member(a, "road"@) == Some(t))
            ||| (text_member(a, "tourism"@) is None && text_member(a, "attraction"@) is None
                && text_member(a, "leisure"@) is None && text_member(a, "building"@) is None
                && text_member(a, "road"@) is None && text_member(a, "suburb"@) == Some(t))
            ||| (text_member(a, "tourism"@) is None && text_member(a, "attraction"@) is None
                && text_member(a, "leisure"@) is None && text_member(a, "building"@) is None
                && text_member(a, "road"@) is None && text_member(a, "suburb"@) is None
                && text_member(a, "neighbourhood"@) == Some(t))
        }) ==> {
            &&& !t.contains(';') && trimmed(t).len() > 0 ==> names_of_address(a).name == trimmed(t)
            &&& t == x + seq![';'] + y && !x.contains(';') && trimmed(x).len() > 0
                ==> names_of_address(a).name == trimmed(x)
        },
        ({
            &&& text_member(a, "tourism"@) is None
            &&& text_member(a, "attraction"@) is None
            &&& text_member(a, "leisure"@) is None
            &&& text_member(a, "building"@) is None
            &&& text_member(a, "road"@) is None
            &&& text_member(a, "suburb"@) is None
            &&& text_member(a, "neighbourhood"@) is None
        }) ==> {
            let city = names_of_address(a).city;
            &&& !city.contains(';') && trimmed(city).len() > 0 ==> names_of_address(a).name
                == trimmed(city)
            &&& city.len() == 0 ==> names_of_address(a).name == "新地点"@
        },
        names_of_address(a).name.len() > 0,
{
    reveal_strlit("新地点");
    let keys = seq![
        "tourism"@,
        "attraction"@,
        "leisure"@,
        "building"@,
        "road"@,
        "suburb"@,
        "neighbourhood"@,
    ];
    let at: int = if text_member(a, "tourism"@) is Some { 0 }
        else if text_member(a, "attraction"@) is Some { 1 }
        else if text_member(a, "leisure"@) is Some { 2 }
        else if text_member(a, "building"@) is Some { 3 }
        else if text_member(a, "road"@) is Some { 4 }
        else if text_member(a, "suburb"@) is Some { 5 }
        else if text_member(a, "neighbourhood"@) is Some { 6 } else { 7 };
    lemma_picked(a, keys, at);
    let city = names_of_address(a).city;
    let seps = seq![';'];
    assert(seps[0] == ';');
    if !t.contains(';') {
        crate::text::lemma_single_piece(t, seps);
    }
    if !city.contains(';') {
        crate::text::lemma_single_piece(city, seps);
    }
    if t == x + seq![';'] + y && !x.contains(';') {
        crate::text::lemma_split_head(x, ';', y, seps);
    }
    if trimmed(t).len() > 0 {
        lemma_trimmed_is_part(t);
        assert(t.len() > 0);
    }
    if trimmed(city).len() > 0 {
        lemma_trimmed_is_part(city);
    }
    if city.len() == 0 {
        assert(city =~= Seq::empty());
        assert(split_at_any(city, seps)[0] =~= Seq::empty());
        crate::text::law_trimming(city, ';');
    }
}

/// A hit of the geocoder has the position, the name and the address that its entry tells: the
/// latitude from `lat`, the longitude from `lon`, the name from `name`, or else what stands before
/// the first comma of the whole address.
pub proof fn law_a_hit_says_what_its_entry_says(item: JsonV, x: Seq<char>, y: Seq<char>)
    requires
        text_member(item, "lat"@) is Some,
        text_member(item, "lon"@) is Some,
    ensures
        geo_hit(item) is Some,
        ({
            let h = geo_hit(item)->0;
            &&& Some(h.lat) == text_member(item, "lat"@)
            &&& Some(h.lng) == text_member(item, "lon"@)
            &&& text_member(item, "display_name"@) matches Some(d) ==> h.display == d
            &&& text_member(item, "name"@) matches Some(n) ==> n.len() > 0 ==> h.name == n
            &&& text_member(item, "name"@) is None && text_member(item, "display_name"@) == Some(
                x + seq![','] + y,
            ) && !x.contains(',') ==> h.name == trimmed(x)
        }),
{
    let seps = seq![','];
    assert(seps[0] == ',');
    if !x.contains(',') {
        crate::text::lemma_split_head(x, ',', y, seps);
    }
}

/// The city of a hit is the first of the city, the town, the village, the county, the district and
/// the state of its address; its country is that of the address. An entry without a position is no
/// hit.
pub proof fn law_the_city_of_a_hit(item: JsonV, a: JsonV, t: Seq<char>)
    ensures
        text_member(item, "lat"@) is None || text_member(item, "lon"@) is None ==> geo_hit(
            item,
        ) is None,
        geo_hit(item) matches Some(h) ==> member(item, "address"@) == Some(a) ==> {
            &&& text_member(a, "country"@) matches Some(c) ==> h.country == c
            &&& ({
            ||| (text_member(a, "city"@) == Some(t))
            ||| (text_member(a, "city"@) is None && text_member(a, "town"@) == Some(t))
            ||| (text_member(a, "city"@) is None && text_member(a, "town"@) is None
                && text_member(a, "village"@) == Some(t))
            ||| (text_member(a, "city"@) is None && text_member(a, "town"@) is None
                && text_member(a, "village"@) is None && text_member(a, "county"@) == Some(t))
            ||| (text_member(a, "city"@) is None && text_member(a, "town"@) is None
                && text_member(a, "village"@) is None && text_member(a, "county"@) is None
                && text_member(a, "state_district"@) == Some(t))
            ||| (text_member(a, "city"@) is None && text_member(a, "town"@) is None
                && text_member(a, "village"@) is None && text_member(a, "county"@) is None
                && text_member(a, "state_district"@) is None && text_member(a, "state"@) == Some(t))
            }) ==> h.city == t
        },
{
    let keys = seq![
        "city"@,
        "town"@,
        "village"@,
        "county"@,
        "state_district"@,
        "state"@,
    ];
    if text_member(a, "city"@) is Some {
        lemma_picked(a, keys, 0);
    } else if text_member(a, "town"@) is Some {
        lemma_picked(a, keys, 1);
    } else if text_member(a, "village"@) is Some {
        lemma_picked(a, keys, 2);
    } else if text_member(a, "county"@) is Some {
        lemma_picked(a, keys, 3);
    } else if text_member(a, "state_district"@) is Some {
        lemma_picked(a, keys, 4);
    } else if text_member(a, "state"@) is Some {
        lemma_picked(a, keys, 5);
    }
}

/// The hits of a list are those of its entries that have a position, in their order.
pub proof fn law_hits_keep_their_order(front: Seq<JsonV>, item: JsonV)
    ensures
        geo_hit(item) matches Some(h) ==> geo_hits(front.push(item)) == geo_hits(front).push(h),
        geo_hit(item) is None ==> geo_hits(front.push(item)) == geo_hits(front),
        geo_hits(Seq::empty()).len() == 0,
{
    assert(front.push(item).drop_last() =~= front);
}

/// A name of three or more characters loses the last one if that says what kind of area it is, and
/// stays whole otherwise: for trips these are eleven characters, for cities seven.
pub proof fn law_suffixes_are_cut(x: Seq<char>, c: char, other: Seq<char>)
    requires
        x.len() >= 2,
        !crate::text::white_space(x[0]),
        !crate::text::white_space(c),
        trimmed(other).len() == 0,
    ensures
        ({
            let listed = c == '都' || c == '府' || c == '県' || c == '省' || c == '市' || c == '縣'
                || c
                == '县';
            let ward = c == '区' || c == '區';
            let small = c == '町' || c == '村';
            let name = x.push(c);
            &&& group_name(name, other) == if listed || ward || small {
                x
            } else {
                name
            }
            &&& group_name(other, name) == group_name(name, other)
            &&& city_name(name, other) == if listed {
                x
            } else {
                name
            }
        }),
{
    let name = x.push(c);
    crate::text::law_trimming(name, c);
    assert(name.drop_last() =~= x);
    assert(name[0] == x[0]);
}

/// The codes of the prefectures, digit by digit.
proof fn lemma_prefecture_codes()
    ensures
        "JP-01"@[3] == '0' && "JP-01"@[4] == '1' && "JP-01"@.len() == 5,
        "JP-02"@[3] == '0' && "JP-02"@[4] == '2' && "JP-02"@.len() == 5,
        "JP-03"@[3] == '0' && "JP-03"@[4] == '3' && "JP-03"@.len() == 5,
        "JP-04"@[3] == '0' && "JP-04"@[4] == '4' && "JP-04"@.len() == 5,
        "JP-05"@[3] == '0' && "JP-05"@[4] == '5' && "JP-05"@.len() == 5,
        "JP-06"@[3] == '0' && "JP-06"@[4] == '6' && "JP-06"@.len() == 5,
        "JP-07"@[3] == '0' && "JP-07"@[4] == '7' && "JP-07"@.len() == 5,
        "JP-08"@[3] == '0' && "JP-08"@[4] == '8' && "JP-08"@.len() == 5,
        "JP-09"@[3] == '0' && "JP-09"@[4] == '9' && "JP-09"@.len() == 5,
        "JP-10"@[3] == '1' && "JP-10"@[4] == '0' && "JP-10"@.len() == 5,
        "JP-11"@[3] == '1' && "JP-11"@[4] == '1' && "JP-11"@.len() == 5,
        "JP-12"@[3] == '1' && "JP-12"@[4] == '2' && "JP-12"@.len() == 5,
        "JP-13"@[3] == '1' && "JP-13"@[4] == '3' && "JP-13"@.len() == 5,
        "JP-14"@[3] == '1' && "JP-14"@[4] == '4' && "JP-14"@.len() == 5,
        "JP-15"@[3] == '1' && "JP-15"@[4] == '5' && "JP-15"@.len() == 5,
        "JP-16"@[3] == '1' && "JP-16"@[4] == '6' && "JP-16"@.len() == 5,
        "JP-17"@[3] == '1' && "JP-17"@[4] == '7' && "JP-17"@.len() == 5,
        "JP-18"@[3] == '1' && "JP-18"@[4] == '8' && "JP-18"@.len() == 5,
        "JP-19"@[3] == '1' && "JP-19"@[4] == '9' && "JP-19"@.len() == 5,
        "JP-20"@[3] == '2' && "JP-20"@[4] == '0' && "JP-20"@.len() == 5,
        "JP-21"@[3] == '2' && "JP-21"@[4] == '1' && "JP-21"@.len() == 5,
        "JP-22"@[3] == '2' && "JP-22"@[4] == '2' && "JP-22"@.len() == 5,
        "JP-23"@[3] == '2' && "JP-23"@[4] == '3' && "JP-23"@.len() == 5,
        "JP-24"@[3] == '2' && "JP-24"@[4] == '4' && "JP-24"@.len() == 5,
        "JP-25"@[3] == '2' && "JP-25"@[4] == '5' && "JP-25"@.len() == 5,
        "JP-26"@[3] == '2' && "JP-26"@[4] == '6' && "JP-26"@.len() == 5,
        "JP-27"@[3] == '2' && "JP-27"@[4] == '7' && "JP-27"@.len() == 5,
        "JP-28"@[3] == '2' && "JP-28"@[4] == '8' && "JP-28"@.len() == 5,
        "JP-29"@[3] == '2' && "JP-29"@[4] == '9' && "JP-29"@.len() == 5,
        "JP-30"@[3] == '3' && "JP-30"@[4] == '0' && "JP-30"@.len() == 5,
        "JP-31"@[3] == '3' && "JP-31"@[4] == '1' && "JP-31"@.len() == 5,
        "JP-32"@[3] == '3' && "JP-32"@[4] == '2' && "JP-32"@.len() == 5,
        "JP-33"@[3] == '3' && "JP-33"@[4] == '3' && "JP-33"@.len() == 5,
        "JP-34"@[3] == '3' && "JP-34"@[4] == '4' && "JP-34"@.len() == 5,
        "JP-35"@[3] == '3' && "JP-35"@[4] == '5' && "JP-35"@.len() == 5,
        "JP-36"@[3] == '3' && "JP-36"@[4] == '6' && "JP-36"@.len() == 5,
        "JP-37"@[3] == '3' && "JP-37"@[4] == '7' && "JP-37"@.len() == 5,
        "JP-38"@[3] == '3' && "JP-38"@[4] == '8' && "JP-38"@.len() == 5,
        "JP-39"@[3] == '3' && "JP-39"@[4] == '9' && "JP-39"@.len() == 5,
        "JP-40"@[3] == '4' && "JP-40"@[4] == '0' && "JP-40"@.len() == 5,
        "JP-41"@[3] == '4' && "JP-41"@[4] == '1' && "JP-41"@.len() == 5,
        "JP-42"@[3] == '4' && "JP-42"@[4] == '2' && "JP-42"@.len() == 5,
        "JP-43"@[3] == '4' && "JP-43"@[4] == '3' && "JP-43"@.len() == 5,
        "JP-44"@[3] == '4' && "JP-44"@[4] == '4' && "JP-44"@.len() == 5,
        "JP-45"@[3] == '4' && "JP-45"@[4] == '5' && "JP-45"@.len() == 5,
        "JP-46"@[3] == '4' && "JP-46"@[4] == '6' && "JP-46"@.len() == 5,
        "JP-47"@[3] == '4' && "JP-47"@[4] == '7' && "JP-47"@.len() == 5,
{
    reveal_strlit("JP-01");
    reveal_strlit("JP-02");
    reveal_strlit("JP-03");
    reveal_strlit("JP-04");
    reveal_strlit("JP-05");
    reveal_strlit("JP-06");
    reveal_strlit("JP-07");
    reveal_strlit("JP-08");
    reveal_strlit("JP-09");
    reveal_strlit("JP-10");
    reveal_strlit("JP-11");
    reveal_strlit("JP-12");
    reveal_strlit("JP-13");
    reveal_strlit("JP-14");
    reveal_strlit("JP-15");
    reveal_strlit("JP-16");
    reveal_strlit("JP-17");
    reveal_strlit("JP-18");
    reveal_strlit("JP-19");
    reveal_strlit("JP-20");
    reveal_strlit("JP-21");
    reveal_strlit("JP-22");
    reveal_strlit("JP-23");
    reveal_strlit("JP-24");
    reveal_strlit("JP-25");
    reveal_strlit("JP-26");
    reveal_strlit("JP-27");
    reveal_strlit("JP-28");
    reveal_strlit("JP-29");
    reveal_strlit("JP-30");
    reveal_strlit("JP-31");
    reveal_strlit("JP-32");
    reveal_strlit("JP-33");
    reveal_strlit("JP-34");
    reveal_strlit("JP-35");
    reveal_strlit("JP-36");
    reveal_strlit("JP-37");
    reveal_strlit("JP-38");
    reveal_strlit("JP-39");
    reveal_strlit("JP-40");
    reveal_strlit("JP-41");
    reveal_strlit("JP-42");
    reveal_strlit("JP-43");
    reveal_strlit("JP-44");
    reveal_strlit("JP-45");
    reveal_strlit("JP-46");
    reveal_strlit("JP-47");
}

/// Every prefecture of Japan has its name.
pub proof fn law_prefectures()
    ensures
        prefecture("JP-01"@) == Some("北海道"@),
        prefecture("JP-02"@) == Some("青森"@),
        prefecture("JP-03"@) == Some("岩手"@),
        prefecture("JP-04"@) == Some("宫城"@),
        prefecture("JP-05"@) == Some("秋田"@),
        prefecture("JP-06"@) == Some("山形"@),
        prefecture("JP-07"@) == Some("福岛"@),
        prefecture("JP-08"@) == Some("茨城"@),
        prefecture("JP-09"@) == Some("栃木"@),
        prefecture("JP-10"@) == Some("群马"@),
        prefecture("JP-11"@) == Some("埼玉"@),
        prefecture("JP-12"@) == Some("千叶"@),
        prefecture("JP-13"@) == Some("东京"@),
        prefecture("JP-14"@) == Some("神奈川"@),
        prefecture("JP-15"@) == Some("新潟"@),
        prefecture("JP-16"@) == Some("富山"@),
        prefecture("JP-17"@) == Some("石川"@),
        prefecture("JP-18"@) == Some("福井"@),
        prefecture("JP-19"@) == Some("山梨"@),
        prefecture("JP-20"@) == Some("长野"@),
        prefecture("JP-21"@) == Some("岐阜"@),
        prefecture("JP-22"@) == Some("静冈"@),
        prefecture("JP-23"@) == Some("爱知"@),
        prefecture("JP-24"@) == Some("三重"@),
        prefecture("JP-25"@) == Some("滋贺"@),
        prefecture("JP-26"@) == Some("京都"@),
        prefecture("JP-27"@) == Some("大阪"@),
        prefecture("JP-28"@) == Some("兵库"@),
        prefecture("JP-29"@) == Some("奈良"@),
        prefecture("JP-30"@) == Some("和歌山"@),
        prefecture("JP-31"@) == Some("鸟取"@),
        prefecture("JP-32"@) == Some("岛根"@),
        prefecture("JP-33"@) == Some("冈山"@),
        prefecture("JP-34"@) == Some("广岛"@),
        prefecture("JP-35"@) == Some("山口"@),
        prefecture("JP-36"@) == Some("德岛"@),
        prefecture("JP-37"@) == Some("香川"@),
        prefecture("JP-38"@) == Some("爱媛"@),
        prefecture("JP-39"@) == Some("高知"@),
        prefecture("JP-40"@) == Some("福冈"@),
        prefecture("JP-41"@) == Some("佐贺"@),
        prefecture("JP-42"@) == Some("长崎"@),
        prefecture("JP-43"@) == Some("熊本"@),
        prefecture("JP-44"@) == Some("大分"@),
        prefecture("JP-45"@) == Some("宫崎"@),
        prefecture("JP-46"@) == Some("鹿儿岛"@),
        prefecture("JP-47"@) == Some("冲绳"@),
{
    lemma_prefecture_codes();
}

/// A date becomes its year and month, whichever of the separators it is written with; a year alone
/// stays a year.
pub proof fn law_dates_become_months(
    y: Seq<char>,
    a: char,
    m: Seq<char>,
    b: char,
    rest: Seq<char>,
)
    requires
        byte_len(y) == 4,
        m.len() > 0,
        a == '.' || a == '-' || a == '/',
        b == '.' || b == '-' || b == '/',
        !y.contains('.') && !y.contains('-') && !y.contains('/'),
        !m.contains('.') && !m.contains('-') && !m.contains('/'),
    ensures
        month_of(y) == y,
        month_of(y + seq![a]) == y,
        month_of(y + seq![a] + m) == y + seq!['.'] + m,
        month_of(y + seq![a] + (m + seq![b] + rest)) == y + seq!['.'] + m,
{
    let seps = date_seps();
    assert(seps[0] == '.' && seps[1] == '-' && seps[2] == '/');
    assert forall|i: int| 0 <= i < y.len() implies !seps.contains(#[trigger] y[i]) by {
        assert(y.contains(y[i]));
    }
    assert forall|i: int| 0 <= i < m.len() implies !seps.contains(#[trigger] m[i]) by {
        assert(m.contains(m[i]));
    }
    lemma_single_piece(y, seps);
    lemma_single_piece(m, seps);
    crate::text::lemma_split_head(y, a, Seq::empty(), seps);
    assert(y + seq![a] + Seq::<char>::empty() =~= y + seq![a]);
    assert(split_at_any(Seq::<char>::empty(), seps)[0].len() == 0);
    crate::text::lemma_split_head(y, a, m, seps);
    crate::text::lemma_split_head(m, b, rest, seps);
    crate::text::lemma_split_head(y, a, m + seq![b] + rest, seps);
}

/// An emoji field that is harmless and short is kept as it is; control characters and angle
/// brackets are taken out of one, wherever they stand.
pub proof fn law_harmless_em_stays(s: Seq<char>, a: Seq<char>, c: char, b: Seq<char>)
    ensures
        s.len() <= 8 && (forall|i: int|
            0 <= i < s.len() ==> {
                let n = (#[trigger] s[i]) as u32;
                n > 0x1f && !(0x7f <= n <= 0x9f) && s[i] != '<' && s[i] != '>'
            }) ==> clean_em(s) == s,
        c == '<' || c == '>' || c as u32 <= 0x1f || 0x7f <= c as u32 <= 0x9f ==> clean_em(
            a + seq![c] + b,
        ) == clean_em(a + b),
{
    lemma_filter_all(s, em_allowed());
    lemma_filter_drop(a, c, b, em_allowed());
}

/// A message that is harmless, short and without white space at its ends is kept as it is, its line
/// feeds too; other control characters are taken out of one, wherever they stand.
pub proof fn law_harmless_text_stays(
    s: Seq<char>,
    max: nat,
    a: Seq<char>,
    c: char,
    b: Seq<char>,
)
    ensures
        0 < s.len() <= max && (forall|i: int|
            0 <= i < s.len() ==> {
                let n = (#[trigger] s[i]) as u32;
                s[i] == '\n' || n > 0x1f && !(0x7f <= n <= 0x9f)
            }) && !crate::text::white_space(s[0]) && !crate::text::white_space(s.last())
            ==> clean_text(s, max) == s,
        c != '\n' && (c as u32 <= 0x1f || 0x7f <= c as u32 <= 0x9f) ==> clean_text(
            a + seq![c] + b,
            max,
        ) == clean_text(a + b, max),
{
    lemma_filter_all(s, text_allowed());
    lemma_filter_drop(a, c, b, text_allowed());
    crate::text::law_trimming(s, c);
}

/// A filter that lets everything pass changes nothing.
proof fn lemma_filter_all(s: Seq<char>, p: spec_fn(char) -> bool)
    ensures
        (forall|i: int| 0 <= i < s.len() ==> p(#[trigger] s[i])) ==> s.filter(p) == s,
    decreases s.len(),
{
    reveal(Seq::filter);
    if s.len() > 0 && (forall|i: int| 0 <= i < s.len() ==> p(#[trigger] s[i])) {
        let t = s.drop_last();
        assert forall|i: int| 0 <= i < t.len() implies p(#[trigger] t[i]) by {
            assert(t[i] == s[i]);
        }
        lemma_filter_all(t, p);
        assert(p(s[s.len() - 1]));
        assert(t.push(s.last()) =~= s);
    }
}

/// What a filter does not let pass might as well not be there.
proof fn lemma_filter_drop(a: Seq<char>, c: char, b: Seq<char>, p: spec_fn(char) -> bool)
    ensures
        !p(c) ==> (a + seq![c] + b).filter(p) == (a + b).filter(p),
    decreases b.len(),
{
    reveal(Seq::filter);
    if b.len() == 0 {
        assert((a + seq![c] + b).drop_last() =~= a);
        assert(a + b =~= a);
    } else {
        lemma_filter_drop(a, c, b.drop_last(), p);
        assert((a + seq![c] + b).drop_last() =~= a + seq![c] + b.drop_last());
        assert((a + b).drop_last() =~= a + b.drop_last());
    }
}

/// A name of one or two characters stays whole, whatever it ends with, and white space around a name
/// does not matter.
pub proof fn law_short_names_stay_whole(x: Seq<char>, other: Seq<char>, space: char)
    requires
        0 < x.len() <= 2,
        !crate::text::white_space(x[0]),
        !crate::text::white_space(x.last()),
        trimmed(other).len() == 0,
        crate::text::white_space(space),
    ensures
        group_name(x, other) == x,
        group_name(other, x) == x,
        city_name(x, other) == x,
        group_name(seq![space] + x, other) == x,
        city_name(x + seq![space], other) == x,
{
    crate::text::law_trimming(x, space);
}

/// A ward goes by the name of its region, where that is known; another city does not.
pub proof fn law_wards_go_by_their_region(city: Seq<char>, region: Seq<char>, c: char)
    requires
        !crate::text::white_space(c),
        trimmed(region).len() > 0,
    ensures
        c == '区' || c == '區' ==> city_name(city.push(c), region) == city_name(
            region,
            Seq::empty(),
        ),
        c != '区' && c != '區' ==> city_name(city.push(c), region) == city_name(
            city.push(c),
            Seq::empty(),
        ),
{
    crate::text::law_trimming(Seq::empty(), c);
    lemma_last_of_trimmed(city, c);
}

/// What ends with no white space ends so without the white space at its beginning.
proof fn lemma_last_of_trimmed(s: Seq<char>, c: char)
    requires
        !crate::text::white_space(c),
    ensures
        trimmed(s.push(c)).len() > 0,
        trimmed(s.push(c)).last() == c,
    decreases s.len(),
{
    let t = s.push(c);
    if s.len() > 0 && crate::text::white_space(t[0]) {
        assert(t.drop_first() =~= s.drop_first().push(c));
        lemma_last_of_trimmed(s.drop_first(), c);
    } else {
        assert(crate::text::trim_start(t) == t);
        assert(t.last() == c);
    }
}

/// A trip goes by the region before it goes by the city.
pub proof fn law_the_region_comes_first(region: Seq<char>, city: Seq<char>, other: Seq<char>)
    requires
        trimmed(region).len() > 0,
    ensures
        group_name(region, city) == group_name(region, other),
{
}

/// What does not begin with a year stays as it is.
pub proof fn law_other_dates_stay(s: Seq<char>, y: Seq<char>, a: char, rest: Seq<char>)
    requires
        !y.contains('.') && !y.contains('-') && !y.contains('/'),
        byte_len(y) != 4,
        a == '.' || a == '-' || a == '/',
    ensures
        month_of(y) == y,
        month_of(y + seq![a] + rest) == y + seq![a] + rest,
{
    let seps = date_seps();
    assert(seps[0] == '.' && seps[1] == '-' && seps[2] == '/');
    assert forall|i: int| 0 <= i < y.len() implies !seps.contains(#[trigger] y[i]) by {
        assert(y.contains(y[i]));
    }
    lemma_single_piece(y, seps);
    crate::text::lemma_split_head(y, a, rest, seps);
}

/// An address with an empty state, and one whose code is unknown, has no region but what the code
/// tells.
pub proof fn law_empty_states(a: JsonV)
    requires
        text_member(a, "state"@) == Some(Seq::<char>::empty()),
    ensures
        match text_member(a, "ISO3166-2-lvl4"@) {
            Some(iso) => match prefecture(iso) {
                Some(p) => names_of_address(a).region == p,
                None => names_of_address(a).region.len() == 0,
            },
            None => names_of_address(a).region.len() == 0,
        },
{
    lemma_picked(a, seq!["state"@, "province"@, "region"@], 0);
}

/// A hit without a name of its own goes by its address up to the first comma; what its entry does
/// not say is empty.
pub proof fn law_what_a_hit_does_not_say(item: JsonV, x: Seq<char>, y: Seq<char>)
    requires
        geo_hit(item) is Some,
    ensures
        ({
            let h = geo_hit(item)->0;
            &&& text_member(item, "display_name"@) is None ==> h.display.len() == 0
            &&& text_member(item, "name"@) == Some(Seq::<char>::empty()) && text_member(
                item,
                "display_name"@,
            ) == Some(x + seq![','] + y) && !x.contains(',') ==> h.name == trimmed(x)
            &&& member(item, "address"@) is None ==> h.city.len() == 0 && h.country.len() == 0
            &&& member(item, "address"@) matches Some(a) ==> text_member(a, "country"@) is None
                ==> h.country.len() == 0
        }),
{
    let seps = seq![','];
    assert(seps[0] == ',');
    if !x.contains(',') {
        assert forall|i: int| 0 <= i < x.len() implies !seps.contains(#[trigger] x[i]) by {
            assert(x.contains(x[i]));
        }
        crate::text::lemma_split_head(x, ',', y, seps);
    }
}

} // verus!
