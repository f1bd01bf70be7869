//! What the functions on strings give, for every input.

use vstd::prelude::*;

use crate::name_map;
use crate::name_map::NameMap;
use crate::text;
use crate::text::{
    between, contains, decimal_of, lines_of, pad_left, parse_u64, starts_with, trim, words_of,
};

verus! {

/// Whether a character is white space, by its number.
pub open spec fn is_space(c: char) -> bool {
    let n = c as int;
    9 <= n <= 13 || n == 32 || n == 0x85 || n == 0xa0 || n == 0x1680 || 0x2000 <= n <= 0x200a || n
        == 0x2028 || n == 0x2029 || n == 0x202f || n == 0x205f || n == 0x3000
}

/// Whether a character separates words: a space, tab, line feed, form feed or carriage
/// return.
pub open spec fn is_blank(c: char) -> bool {
    let n = c as int;
    n == 32 || n == 9 || n == 10 || n == 12 || n == 13
}

/// Whether a text is one word.
pub open spec fn is_word(w: Seq<char>) -> bool {
    w.len() > 0 && forall|i: int| 0 <= i < w.len() ==> !is_blank(#[trigger] w[i])
}

/// Whether `t` is what is left of `s` without the white space at both ends.
pub open spec fn is_core(t: Seq<char>, s: Seq<char>) -> bool {
    &&& exists|a: int, b: int| #[trigger] is_core_at(t, s, a, b)
    &&& t.len() > 0 ==> !is_space(t.first()) && !is_space(t.last())
}

/// Whether `t` is the part of `s` from `a` up to `b`, with nothing but white space around.
pub open spec fn is_core_at(t: Seq<char>, s: Seq<char>, a: int, b: int) -> bool {
    &&& 0 <= a <= b <= s.len()
    &&& t == s.subrange(a, b)
    &&& forall|i: int| 0 <= i < s.len() && (i < a || b <= i) ==> is_space(#[trigger] s[i])
}

proof fn lemma_trim_start(s: Seq<char>) -> (k: int)
    ensures
        0 <= k <= s.len(),
        text::trim_start(s) == s.skip(k),
        forall|i: int| 0 <= i < k ==> is_space(#[trigger] s[i]),
        k < s.len() ==> !is_space(s[k]),
    decreases s.len(),
{
    if s.len() > 0 && is_space(s.first()) {
        let rest = s.drop_first();
        let k = lemma_trim_start(rest);
        assert(rest.skip(k) =~= s.skip(k + 1));
        assert forall|i: int| 0 <= i < k + 1 implies is_space(#[trigger] s[i]) by {
            if i > 0 {
                assert(s[i] == rest[i - 1]);
            }
        }
        k + 1
    } else {
        assert(s.skip(0) =~= s);
        0
    }
}

proof fn lemma_trim_end(s: Seq<char>) -> (k: int)
    ensures
        0 <= k <= s.len(),
        text::trim_end(s) == s.take(k),
        forall|i: int| k <= i < s.len() ==> is_space(#[trigger] s[i]),
        k > 0 ==> !is_space(s[k - 1]),
    decreases s.len(),
{
    if s.len() > 0 && is_space(s.last()) {
        let rest = s.drop_last();
        let k = lemma_trim_end(rest);
        assert(rest.take(k) =~= s.take(k));
        assert forall|i: int| k <= i < s.len() implies is_space(#[trigger] s[i]) by {
            if i < s.len() - 1 {
                assert(s[i] == rest[i]);
            }
        }
        k
    } else {
        assert(s.take(s.len() as int) =~= s);
        s.len() as int
    }
}

/// What trimming leaves of a text, by the numbers of the characters.
pub proof fn lemma_trimmed_is_core(s: Seq<char>)
    ensures
        is_core(text::trimmed(s), s),
{
    let a = lemma_trim_start(s);
    let t = s.skip(a);
    let k = lemma_trim_end(t);
    let r = text::trimmed(s);
    assert(r =~= s.subrange(a, a + k));
    assert forall|i: int| 0 <= i < s.len() && (i < a || a + k <= i) implies is_space(
        #[trigger] s[i],
    ) by {
        if a + k <= i {
            assert(t[i - a] == s[i]);
        }
    }
    assert(is_core_at(r, s, a, a + k));
    if k > 0 {
        assert(r.first() == s[a]);
        assert(r.last() == t[k - 1]);
    }
}

/// No more than one part of a text is left without the white space at both ends.
pub proof fn lemma_core_is_unique(s: Seq<char>, t: Seq<char>, u: Seq<char>)
    requires
        is_core(t, s),
        is_core(u, s),
    ensures
        t == u,
{
    let (a, b) = choose|a: int, b: int| #[trigger] is_core_at(t, s, a, b);
    let (c, d) = choose|c: int, d: int| #[trigger] is_core_at(u, s, c, d);
    if t.len() > 0 {
        assert(t.first() == s[a] && t.last() == s[b - 1]);
    }
    if u.len() > 0 {
        assert(u.first() == s[c] && u.last() == s[d - 1]);
    }
    assert(t =~= u);
}

/// Trimming takes the white space from both ends, all of it and nothing else.
pub proof fn law_trim_takes_only_outer_white_space(s: &str, r: String)
    requires
        call_ensures(trim, (s,), r),
    ensures
        is_core(r@, s@),
{
    lemma_trimmed_is_core(s@);
}

/// A text without white space at either end is trimmed to itself.
pub proof fn law_trim_keeps_what_has_no_outer_white_space(s: &str, r: String)
    requires
        call_ensures(trim, (s,), r),
        s@.len() > 0 ==> !is_space(s@.first()) && !is_space(s@.last()),
    ensures
        r@ == s@,
{
    law_trim_takes_only_outer_white_space(s, r);
    assert(is_core_at(s@, s@, 0, s@.len() as int)) by {
        assert(s@.subrange(0, s@.len() as int) =~= s@);
    }
    lemma_core_is_unique(s@, r@, s@);
}

/// The words of a text: none of the empty text, the words of the rest after a blank, a
/// word that stands alone, and a word before a blank followed by the words of the rest.
pub proof fn law_words_are_split_at_blanks(
    s: &str,
    r: Vec<String>,
    rest: &str,
    q: Vec<String>,
    w: Seq<char>,
    c: char,
)
    requires
        call_ensures(words_of, (s,), r),
        call_ensures(words_of, (rest,), q),
        is_blank(c),
    ensures
        s@.len() == 0 ==> r@.len() == 0,
        s@ == seq![c] + rest@ ==> text::views(r@) == text::views(q@),
        is_word(s@) ==> text::views(r@) == seq![s@],
        is_word(w) && s@ == w + seq![c] + rest@ ==> text::views(r@) == seq![w] + text::views(q@),
{
    let t = s@;
    if t.len() == 0 {
        assert(text::views(r@).len() == 0);
    }
    if t == seq![c] + rest@ {
        assert(t.drop_first() =~= rest@);
    }
    if is_word(t) {
        text::lemma_word_len_is(t, t.len());
        assert(!is_blank(t[0]));
        assert(t.take(t.len() as int) =~= t);
        assert(text::words(t.skip(t.len() as int)) =~= Seq::empty());
        assert(text::words(t) =~= seq![t]);
    }
    if is_word(w) && t == w + seq![c] + rest@ {
        assert(t[w.len() as int] == c);
        assert forall|i: int| 0 <= i < w.len() implies !text::is_ascii_blank(#[trigger] t[i]) by {
            assert(t[i] == w[i]);
            assert(!is_blank(w[i]));
        }
        text::lemma_word_len_is(t, w.len());
        assert(t.first() == w[0] && !is_blank(w[0]));
        assert(t.take(w.len() as int) =~= w);
        let tail = t.skip(w.len() as int);
        assert(tail.first() == c);
        assert(tail.drop_first() =~= rest@);
        assert(text::words(tail) == text::words(rest@));
    }
}

/// A line without the carriage return at its end, if there is one.
pub open spec fn without_cr(line: Seq<char>) -> Seq<char> {
    if line.len() > 0 && line.last() as int == 13 {
        line.drop_last()
    } else {
        line
    }
}

/// The lines of a text: none of the empty text, the text itself without a line feed, and
/// otherwise what stands before the first line feed, without a carriage return right
/// before it, followed by the lines of the rest.
pub proof fn law_lines_are_split_at_line_feeds(
    s: &str,
    r: Vec<String>,
    rest: &str,
    q: Vec<String>,
    line: Seq<char>,
)
    requires
        call_ensures(lines_of, (s,), r),
        call_ensures(lines_of, (rest,), q),
        forall|i: int| 0 <= i < line.len() ==> #[trigger] line[i] as int != 10,
    ensures
        s@.len() == 0 ==> r@.len() == 0,
        s@ == line && line.len() > 0 ==> text::views(r@) == seq![line],
        s@ == line + seq!['\n'] + rest@ ==> text::views(r@) == seq![without_cr(line)] + text::views(
            q@,
        ),
{
    let t = s@;
    if t.len() == 0 {
        assert(text::views(r@).len() == 0);
    }
    if t == line && line.len() > 0 {
        text::lemma_line_len_is(t, t.len());
    }
    if t == line + seq!['\n'] + rest@ {
        assert(t[line.len() as int] == '\n');
        assert forall|i: int| 0 <= i < line.len() implies #[trigger] t[i] != '\n' by {
            assert(t[i] == line[i]);
        }
        text::lemma_line_len_is(t, line.len());
        assert(t.take(line.len() as int) =~= line);
        assert(t.skip(line.len() as int + 1) =~= rest@);
    }
}

/// The number that decimal digits denote.
pub open spec fn value(s: Seq<char>) -> int
    decreases s.len(),
{
    if s.len() == 0 {
        0
    } else {
        10 * value(s.drop_last()) + (s.last() as int - 48)
    }
}

/// Whether a text is made of decimal digits, at least one.
pub open spec fn is_number(s: Seq<char>) -> bool {
    s.len() > 0 && forall|i: int| 0 <= i < s.len() ==> 48 <= #[trigger] s[i] as int <= 57
}

proof fn lemma_value(s: Seq<char>)
    requires
        forall|i: int| 0 <= i < s.len() ==> 48 <= #[trigger] s[i] as int <= 57,
    ensures
        value(s) == text::digits_value(s),
    decreases s.len(),
{
    if s.len() > 0 {
        let rest = s.drop_last();
        assert forall|i: int| 0 <= i < rest.len() implies 48 <= #[trigger] rest[i] as int <= 57 by {
            assert(rest[i] == s[i]);
        }
        lemma_value(rest);
        assert(48 <= s[s.len() - 1] as int <= 57);
    }
}

proof fn lemma_no_leading_zero(n: nat)
    ensures
        text::decimal(n).len() > 0,
        n > 0 ==> text::decimal(n)[0] as int != 48,
        n < 10 ==> text::decimal(n).len() == 1,
    decreases n,
{
    if n >= 10 {
        lemma_no_leading_zero(n / 10);
    }
}

/// A number in decimal is made of digits that denote it, without a leading zero unless it
/// is zero itself.
pub proof fn law_decimal_denotes_the_number(n: u64, r: String)
    requires
        call_ensures(decimal_of, (n,), r),
    ensures
        is_number(r@),
        value(r@) == n,
        n > 0 ==> r@[0] as int != 48,
        n == 0 ==> r@.len() == 1,
{
    text::lemma_decimal_digits(n as nat);
    assert forall|i: int| 0 <= i < r@.len() implies 48 <= #[trigger] r@[i] as int <= 57 by {
        assert(text::is_digit(text::decimal(n as nat)[i]));
    }
    lemma_value(r@);
    lemma_no_leading_zero(n as nat);
}

/// Whether a text is read as a number: it is made of digits, with or without a plus sign
/// before them, that denote a number of 64 bits, and that number it is.
pub open spec fn reads_as(s: Seq<char>, r: Option<u64>) -> bool {
    let digits = if s.len() > 0 && s[0] == '+' {
        s.drop_first()
    } else {
        s
    };
    &&& r is Some <==> is_number(digits) && value(digits) <= u64::MAX
    &&& r matches Some(n) ==> value(digits) == n
}

/// What parsing gives is what a text is read as.
pub proof fn lemma_parsed_is_read(s: Seq<char>)
    ensures
        reads_as(s, text::parsed_u64(s)),
{
    let d = text::unsigned_part(s);
    if is_number(d) {
        assert forall|i: int| 0 <= i < d.len() implies text::is_digit(#[trigger] d[i]) by {
            assert(48 <= d[i] as int <= 57);
        }
        lemma_value(d);
    }
    if d.len() > 0 && forall|i: int| 0 <= i < d.len() ==> text::is_digit(d[i]) {
        assert forall|i: int| 0 <= i < d.len() implies 48 <= #[trigger] d[i] as int <= 57 by {
            assert(text::is_digit(d[i]));
        }
    }
}

/// A text is read as a number if and only if it is made of digits, with or without a plus
/// sign before them, that denote a number of 64 bits; and as that number.
pub proof fn law_numbers_are_read(s: &str, r: Option<u64>)
    requires
        call_ensures(parse_u64, (s,), r),
    ensures
        reads_as(s@, r),
{
    lemma_parsed_is_read(s@);
}

/// A string that is right-aligned has spaces before it up to the width, and nothing else.
pub proof fn law_padding_is_spaces_before(s: &str, width: usize, r: String)
    requires
        call_ensures(pad_left, (s, width), r),
    ensures
        r@.len() == if s@.len() >= width {
            s@.len()
        } else {
            width as nat
        },
        r@.skip(r@.len() - s@.len()) == s@,
        forall|i: int| 0 <= i < r@.len() - s@.len() ==> #[trigger] r@[i] as int == 32,
{
    assert(r@.skip(r@.len() - s@.len()) =~= s@);
}

/// A string contains another if and only if it is made of something, the other string, and
/// something more.
pub proof fn law_contains_is_a_part(s: &str, needle: &str, r: bool)
    requires
        call_ensures(contains, (s, needle), r),
    ensures
        r <==> exists|a: Seq<char>, b: Seq<char>| s@ == #[trigger] (a + needle@ + b),
{
    if r {
        let i = choose|i: int|
            0 <= i && i + needle@.len() <= s@.len() && #[trigger] s@.subrange(i, i + needle@.len())
                == needle@;
        let a = s@.take(i);
        let b = s@.skip(i + needle@.len());
        assert(s@ =~= a + s@.subrange(i, i + needle@.len()) + b);
        assert(s@ == a + needle@ + b);
    }
    if exists|a: Seq<char>, b: Seq<char>| s@ == #[trigger] (a + needle@ + b) {
        let (a, b) = choose|a: Seq<char>, b: Seq<char>| s@ == #[trigger] (a + needle@ + b);
        let k = a.len() as int;
        assert(s@.subrange(k, k + needle@.len()) =~= needle@);
    }
}

/// A string starts with another if and only if it is made of the other and something more.
pub proof fn law_starts_with_is_a_first_part(s: &str, prefix: &str, r: bool)
    requires
        call_ensures(starts_with, (s, prefix), r),
    ensures
        r <==> exists|b: Seq<char>| s@ == #[trigger] (prefix@ + b),
{
    if r {
        let b = s@.skip(prefix@.len() as int);
        assert(s@ =~= prefix@ + b);
    }
    if exists|b: Seq<char>| s@ == #[trigger] (prefix@ + b) {
        let b = choose|b: Seq<char>| s@ == #[trigger] (prefix@ + b);
        assert(s@.subrange(0, prefix@.len() as int) =~= prefix@);
    }
}

/// What stands between two texts is found if and only if the string is made of the one, of
/// what is found, and of the other.
pub proof fn law_between_is_what_is_enclosed(
    s: &str,
    prefix: &str,
    suffix: &str,
    r: Option<String>,
    t: Seq<char>,
)
    requires
        call_ensures(between, (s, prefix, suffix), r),
    ensures
        r matches Some(inner) ==> s@ == prefix@ + inner@ + suffix@,
        s@ == prefix@ + t + suffix@ ==> (r matches Some(inner) && inner@ == t),
{
    if let Some(inner) = r {
        let rest = s@.skip(prefix@.len() as int);
        assert(rest =~= inner@ + suffix@);
        assert(s@ =~= prefix@ + rest);
        assert(s@ =~= prefix@ + inner@ + suffix@);
    }
    if s@ == prefix@ + t + suffix@ {
        let rest = s@.skip(prefix@.len() as int);
        assert(s@.subrange(0, prefix@.len() as int) =~= prefix@);
        assert(rest =~= t + suffix@);
        assert(rest.subrange(rest.len() - suffix@.len(), rest.len() as int) =~= suffix@);
        assert(rest.take(rest.len() - suffix@.len()) =~= t);
    }
}

/// The map of entries with distinct names binds each name to the value that stands with
/// it, and no other name.
pub proof fn law_map_has_the_entries<V>(
    pairs: Seq<(Seq<char>, V)>,
    name: Seq<char>,
    value: V,
)
    requires
        forall|i: int, j: int|
            0 <= i < j < pairs.len() ==> (#[trigger] pairs[i]).0 != (#[trigger] pairs[j]).0,
    ensures
        pairs.contains((name, value)) <==> name_map::map_of(pairs).contains_key(name)
            && name_map::map_of(pairs)[name] == value,
{
    if pairs.contains((name, value)) {
        let i = choose|i: int| 0 <= i < pairs.len() && pairs[i] == (name, value);
        name_map::lemma_entry(pairs, i);
    }
    if name_map::map_of(pairs).contains_key(name) && name_map::map_of(pairs)[name] == value {
        let i = name_map::lemma_position(pairs, name);
        assert(pairs[i] == (name, value));
    }
}

/// Binding a name leaves the other entries as they are and where they are: a name that was
/// there keeps its place, a new one comes last.
pub proof fn law_binding_keeps_the_order<V>(
    pairs: Seq<(Seq<char>, V)>,
    name: Seq<char>,
    value: V,
    i: int,
)
    requires
        forall|i: int, j: int|
            0 <= i < j < pairs.len() ==> (#[trigger] pairs[i]).0 != (#[trigger] pairs[j]).0,
        0 <= i < pairs.len(),
    ensures
        ({
            let after = name_map::with_pair(pairs, name, value);
            &&& after[i] == if pairs[i].0 == name {
                (name, value)
            } else {
                pairs[i]
            }
            &&& after.len() == pairs.len() || (after.len() == pairs.len() + 1 && after.last() == (
                name,
                value,
            ))
            &&& pairs[i].0 == name ==> after.len() == pairs.len()
            &&& after.len() == pairs.len() ==> exists|j: int|
                0 <= j < pairs.len() && (#[trigger] pairs[j]).0 == name
        }),
{
    if exists|j: int| name_map::named_at(pairs, name, j) {
        let j = choose|j: int| name_map::named_at(pairs, name, j);
        name_map::lemma_entry(pairs, j);
        assert(pairs[j].0 == name);
        if pairs[i].0 == name {
            assert(name_map::named_at(pairs, name, i));
        }
    } else {
        assert(!name_map::named_at(pairs, name, i));
    }
}

/// Unbinding a name takes its entry out, and leaves the others in their order.
pub proof fn law_unbinding_keeps_the_others<V>(
    pairs: Seq<(Seq<char>, V)>,
    name: Seq<char>,
    i: int,
)
    requires
        forall|i: int, j: int|
            0 <= i < j < pairs.len() ==> (#[trigger] pairs[i]).0 != (#[trigger] pairs[j]).0,
    ensures
        0 <= i < pairs.len() && pairs[i].0 == name ==> name_map::without_pair(pairs, name)
            == pairs.take(i) + pairs.skip(i + 1),
        (forall|j: int| 0 <= j < pairs.len() ==> (#[trigger] pairs[j]).0 != name)
            ==> name_map::without_pair(pairs, name) == pairs,
{
    if 0 <= i < pairs.len() && pairs[i].0 == name {
        assert(name_map::named_at(pairs, name, i));
        let j = choose|j: int| name_map::named_at(pairs, name, j);
        assert(pairs[j].0 == name);
        assert(i == j);
        assert(pairs.remove(i) =~= pairs.take(i) + pairs.skip(i + 1));
    }
}

/// A map that is just made is empty. A name is found if and only if it is bound, with the
/// value that it is bound to and under the same name.
pub proof fn law_name_map_finds_what_is_bound<V>(
    empty: NameMap<V>,
    map: &NameMap<V>,
    name: &str,
    value: Option<&V>,
    entry: Option<(&String, &V)>,
    has: bool,
)
    requires
        call_ensures(NameMap::<V>::new, (), empty),
        call_ensures(NameMap::<V>::get, (map, name), value),
        call_ensures(NameMap::<V>::get_key_value, (map, name), entry),
        call_ensures(NameMap::<V>::contains_key, (map, name), has),
    ensures
        empty.pairs().len() == 0,
        has <==> map@.contains_key(name@),
        value is Some <==> map@.contains_key(name@),
        entry is Some <==> map@.contains_key(name@),
        value matches Some(v) ==> *v == map@[name@],
        entry matches Some((k, v)) ==> k@ == name@ && *v == map@[name@],
{
}

/// Inserting binds the name to the value and leaves every other name as it was. Removing
/// unbinds it, leaves every other name as it was, and hands out the value.
pub proof fn law_name_map_changes_one_name<V>()
    ensures
        forall|map: &mut NameMap<V>, name: String, value: V| #[trigger]
            call_ensures(NameMap::<V>::insert, (map, name, value), ()) ==> final(map)@
                == (*map)@.insert(name@, value),
        forall|map: &mut NameMap<V>, name: &str, r: Option<V>| #[trigger]
            call_ensures(NameMap::<V>::remove, (map, name), r) ==> final(map)@ == (*map)@.remove(
                name@,
            ) && (r is Some <==> (*map)@.contains_key(name@)) && (r matches Some(v) ==> v == (
            *map)@[name@]),
{
}

/// Of entries that are taken in one by one, the last with a name counts, and there is no
/// name but theirs.
pub proof fn law_last_entry_counts<V>(entries: Seq<(Seq<char>, V)>, name: Seq<char>, i: int)
    ensures
        0 <= i < entries.len() && entries[i].0 == name && (forall|j: int|
            i < j < entries.len() ==> (#[trigger] entries[j]).0 != name) ==> name_map::map_of(
            name_map::collected(entries),
        ).contains_key(name) && name_map::map_of(name_map::collected(entries))[name]
            == entries[i].1,
        name_map::map_of(name_map::collected(entries)).contains_key(name) ==> exists|j: int|
            0 <= j < entries.len() && (#[trigger] entries[j]).0 == name,
    decreases entries.len(),
{
    name_map::lemma_collected(entries);
    if entries.len() > 0 {
        let rest = entries.drop_last();
        law_last_entry_counts(rest, name, i);
        name_map::lemma_collected(rest);
        if entries.last().0 != name {
            if 0 <= i < entries.len() && entries[i].0 == name && (forall|j: int|
                i < j < entries.len() ==> (#[trigger] entries[j]).0 != name) {
                assert(i < rest.len());
                assert forall|j: int| i < j < rest.len() implies (#[trigger] rest[j]).0 != name by {
                    assert(entries[j].0 != name);
                }
                assert(rest[i] == entries[i]);
            }
            if name_map::map_of(name_map::collected(entries)).contains_key(name) {
                let j = choose|j: int| 0 <= j < rest.len() && (#[trigger] rest[j]).0 == name;
                assert(entries[j].0 == name);
            }
        } else {
            assert(entries[entries.len() - 1].0 == name);
        }
    }
}

} // verus!
