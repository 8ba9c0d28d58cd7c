//! What holds of numbers, words, paths, lengths of time, byte strings and tables.

use crate::duration::duration_text;
use crate::order::{at_places, byte_views, bytes_le, is_sorted_order};
use crate::path::{lemma_part_len_bound, part_len, parts_of, same_path};
use crate::table::Table;
use crate::text::{
    decimal, decimal_round_trip, digits_value, lemma_word_len_bound, opt_text, signed_decimal,
    signed_of, spaced, texts, unsigned_of, without_dot_slash, word_len, words_of,
};
use vstd::prelude::*;

verus! {

/// Whether a text is made of the digits from zero to nine, and of at least one.
pub open spec fn has_digits_only(s: Seq<char>) -> bool {
    s.len() > 0 && forall|i: int| 0 <= i < s.len() ==> '0' <= #[trigger] s[i] <= '9'
}

/// Whether a text has no space, tab, line feed, carriage return or form feed.
pub open spec fn has_no_whitespace(s: Seq<char>) -> bool {
    forall|i: int|
        0 <= i < s.len() ==> {
            let c = #[trigger] s[i];
            c != ' ' && c != '\t' && c != '\n' && c != '\r' && c as int != 0x0c
        }
}

/// A digit at the end of a row of digits makes the number ten times as large
/// and adds itself; no digits at all are zero.
pub proof fn digits_count_in_tens(s: Seq<char>, c: char)
    requires
        '0' <= c <= '9',
    ensures
        digits_value(Seq::empty()) == 0,
        digits_value(s.push(c)) == 10 * digits_value(s) + (c as int - '0' as int),
{
    assert(s.push(c).drop_last() == s);
}

/// A number is written in digits that stand for it, and with no zero in front
/// unless it is zero, which is written as one.
pub proof fn numbers_are_written_shortest(n: nat)
    ensures
        has_digits_only(decimal(n)),
        digits_value(decimal(n)) == n,
        decimal(n).len() > 1 ==> decimal(n)[0] != '0',
    decreases n,
{
    decimal_round_trip(n);
    if n >= 10 {
        numbers_are_written_shortest(n / 10);
        assert(decimal(n)[0] == decimal(n / 10)[0]);
        if decimal(n / 10).len() == 1 {
            assert(decimal(n / 10).drop_last() == Seq::<char>::empty());
            reveal_with_fuel(digits_value, 2);
        }
    }
}

/// A negative number is written with one minus sign in front of what it is
/// without its sign; any other number is written without a sign.
pub proof fn minus_stands_for_negative(n: int)
    ensures
        n < 0 ==> signed_decimal(n) == seq!['-'] + decimal((-n) as nat),
        n >= 0 ==> signed_decimal(n) == decimal(n as nat),
{
}

/// A row of digits is read as the number that it stands for if that fits, with
/// or without a plus sign in front; with a minus sign, as its negative where
/// there are negative numbers.
pub proof fn digits_are_read(s: Seq<char>)
    requires
        has_digits_only(s),
    ensures
        unsigned_of(s) == if digits_value(s) <= u64::MAX {
            Some(digits_value(s) as u64)
        } else {
            None
        },
        unsigned_of(seq!['+'] + s) == unsigned_of(s),
        unsigned_of(seq!['-'] + s) is None,
        signed_of(s) == if digits_value(s) <= i32::MAX {
            Some(digits_value(s) as i32)
        } else {
            None
        },
        signed_of(seq!['+'] + s) == signed_of(s),
        signed_of(seq!['-'] + s) == if digits_value(s) <= 0x8000_0000 {
            Some((-digits_value(s)) as i32)
        } else {
            None
        },
{
    assert('0' <= s[0] <= '9');
    let plus = seq!['+'] + s;
    let minus = seq!['-'] + s;
    assert(plus.skip(1) == s);
    assert(minus.skip(1) == s);
    assert(!('0' <= minus[0] <= '9'));
}

/// A text in which anything but a digit stands behind the first character, or
/// in which the first character is neither a digit nor a sign, is no number;
/// neither is nothing, nor a sign alone.
pub proof fn nothing_else_is_read(s: Seq<char>, i: int)
    requires
        ({
            ||| s.len() == 0
            ||| s.len() == 1 && !('0' <= s[0] <= '9')
            ||| 0 <= i < s.len() && !('0' <= s[i] <= '9') && (i > 0 || (s[0] != '+' && s[0] != '-'))
        }),
    ensures
        unsigned_of(s) is None,
        signed_of(s) is None,
{
    let rest = s.skip(1);
    if 0 < i < s.len() {
        assert(rest[i - 1] == s[i]);
    }
}

proof fn lemma_word_len_before(a: Seq<char>, b: Seq<char>)
    requires
        word_len(a) < a.len(),
    ensures
        word_len(a + b) == word_len(a),
    decreases a.len(),
{
    assert((a + b)[0] == a[0]);
    if word_len(a) > 0 {
        assert((a + b).skip(1) == a.skip(1) + b);
        lemma_word_len_before(a.skip(1), b);
    }
}

proof fn lemma_word_len_up_to(a: Seq<char>, b: Seq<char>)
    requires
        word_len(a) == a.len(),
        word_len(b) == 0,
    ensures
        word_len(a + b) == a.len(),
    decreases a.len(),
{
    if a.len() > 0 {
        assert((a + b)[0] == a[0]);
        assert((a + b).skip(1) == a.skip(1) + b);
        lemma_word_len_up_to(a.skip(1), b);
    } else {
        assert(a + b == b);
    }
}

proof fn lemma_whole_word(w: Seq<char>)
    requires
        has_no_whitespace(w),
    ensures
        word_len(w) == w.len(),
    decreases w.len(),
{
    if w.len() > 0 {
        assert forall|i: int| 0 <= i < w.skip(1).len() implies {
            let c = #[trigger] w.skip(1)[i];
            c != ' ' && c != '\t' && c != '\n' && c != '\r' && c as int != 0x0c
        } by {
            assert(w.skip(1)[i] == w[i + 1]);
        }
        lemma_whole_word(w.skip(1));
        assert(w[0] == w[0]);
    }
}

/// A text is split at each space, tab, line feed, carriage return and form
/// feed, and nowhere else: the words of two texts with one of these between
/// them are those of the first and then those of the second; a text without any
/// of these is one word, unless it is empty.
pub proof fn words_end_at_whitespace(a: Seq<char>, c: char, b: Seq<char>)
    requires
        c == ' ' || c == '\t' || c == '\n' || c == '\r' || c as int == 0x0c,
    ensures
        words_of(a + seq![c] + b) == words_of(a) + words_of(b),
        has_no_whitespace(a) && a.len() > 0 ==> words_of(a) == seq![a],
        words_of(Seq::empty()) == Seq::<Seq<char>>::empty(),
    decreases a.len(),
{
    let tail = seq![c] + b;
    let all = a + seq![c] + b;
    assert(all == a + tail);
    assert(tail.skip(1) == b);
    assert(words_of(tail) == words_of(b));
    if has_no_whitespace(a) && a.len() > 0 {
        lemma_whole_word(a);
        assert(a.take(a.len() as int) == a);
        assert(a.skip(a.len() as int) == Seq::<char>::empty());
        assert(a[0] != ' ');
        assert(words_of(a) == seq![a] + words_of(Seq::empty()));
        assert(words_of(a) == seq![a]);
    }
    if a.len() == 0 {
        assert(all == tail);
        assert(words_of(a) + words_of(b) == words_of(b));
    } else if word_len(a) == 0 {
        assert(all[0] == a[0]);
        assert(all.skip(1) == a.skip(1) + seq![c] + b);
        words_end_at_whitespace(a.skip(1), c, b);
    } else {
        let n = word_len(a) as int;
        lemma_word_len_bound(a);
        if n < a.len() {
            lemma_word_len_before(a, tail);
        } else {
            assert(word_len(tail) == 0);
            lemma_word_len_up_to(a, tail);
        }
        assert(all[0] == a[0]);
        assert(all.take(n) == a.take(n));
        assert(all.skip(n) == a.skip(n) + seq![c] + b);
        words_end_at_whitespace(a.skip(n), c, b);
        assert(words_of(all) == seq![a.take(n)] + words_of(all.skip(n)));
        assert(words_of(a) + words_of(b) == seq![a.take(n)] + (words_of(a.skip(n)) + words_of(b)));
    }
}

/// Every `./` in front is taken off, and nothing else.
pub proof fn dot_slash_is_taken_off(s: Seq<char>)
    ensures
        without_dot_slash(seq!['.', '/'] + s) == without_dot_slash(s),
        !(s.len() >= 2 && s[0] == '.' && s[1] == '/') ==> without_dot_slash(s) == s,
{
    assert((seq!['.', '/'] + s).skip(2) == s);
}

/// Joined texts stand one after the other with one space between each two.
pub proof fn joined_texts_have_spaces_between(parts: Seq<Seq<char>>, last: Seq<char>)
    ensures
        spaced(Seq::empty()) == Seq::<char>::empty(),
        spaced(seq![last]) == last,
        parts.len() > 0 ==> spaced(parts.push(last)) == spaced(parts) + seq![' '] + last,
{
    assert(parts.push(last).drop_last() == parts);
    if parts.len() > 0 {
        assert(spaced(parts).push(' ') + last == spaced(parts) + seq![' '] + last);
    }
}

/// The texts of strings are their own, one for one.
pub proof fn texts_are_their_own(v: Seq<String>, s: Option<String>)
    ensures
        texts(v).len() == v.len(),
        forall|i: int| 0 <= i < v.len() ==> #[trigger] texts(v)[i] == v[i]@,
        s is None <==> opt_text(s) is None,
        s matches Some(t) ==> opt_text(s) == Some(t@),
{
}

/// A count of a unit, and of a shorter unit if something is left.
pub open spec fn in_two_units(count: int, unit: char, rest: int, less: int, shorter: char) -> Seq<
    char,
> {
    let first = decimal(count as nat) + seq![unit];
    if rest == 0 {
        first
    } else {
        first + seq![' '] + decimal((rest / less) as nat) + seq![shorter]
    }
}

/// A length of time is written in the longest of years of fifty-two weeks,
/// weeks, days, hours, minutes and seconds that fits into it, and what is left
/// in the next shorter one.
pub proof fn durations_are_written_in_two_units(secs: int)
    requires
        secs >= 0,
    ensures
        secs < 60 ==> duration_text(secs) == decimal(secs as nat) + seq!['s'],
        60 <= secs < 3600 ==> duration_text(secs) == in_two_units(
            secs / 60,
            'm',
            secs % 60,
            1,
            's',
        ),
        3600 <= secs < 86400 ==> duration_text(secs) == in_two_units(
            secs / 3600,
            'h',
            secs % 3600,
            60,
            'm',
        ),
        86400 <= secs < 604800 ==> duration_text(secs) == in_two_units(
            secs / 86400,
            'd',
            secs % 86400,
            3600,
            'h',
        ),
        604800 <= secs < 31449600 ==> duration_text(secs) == in_two_units(
            secs / 604800,
            'w',
            secs % 604800,
            86400,
            'd',
        ),
        31449600 <= secs ==> duration_text(secs) == in_two_units(
            secs / 31449600,
            'y',
            secs % 31449600,
            604800,
            'w',
        ),
{
    if secs == 0 {
        assert(decimal(0) =~= seq!['0']);
        assert(duration_text(secs) =~= decimal(0) + seq!['s']);
    } else if secs < 60 {
        assert(secs / 1 == secs && secs % 1 == 0);
        assert(duration_text(secs) =~= decimal(secs as nat) + seq!['s']);
    } else if secs < 3600 {
        assert(duration_text(secs) =~= in_two_units(secs / 60, 'm', secs % 60, 1, 's'));
    } else if secs < 86400 {
        assert(duration_text(secs) =~= in_two_units(secs / 3600, 'h', secs % 3600, 60, 'm'));
    } else if secs < 604800 {
        assert(duration_text(secs) =~= in_two_units(secs / 86400, 'd', secs % 86400, 3600, 'h'));
    } else if secs < 31449600 {
        assert(duration_text(secs) =~= in_two_units(secs / 604800, 'w', secs % 604800, 86400, 'd'));
    } else {
        assert(duration_text(secs) =~= in_two_units(
            secs / 31449600,
            'y',
            secs % 31449600,
            604800,
            'w',
        ));
    }
}

proof fn lemma_part_len_before(a: Seq<char>, b: Seq<char>)
    requires
        part_len(a) < a.len() || b.len() == 0 || b[0] == '/',
    ensures
        part_len(a + b) == part_len(a),
    decreases a.len(),
{
    if a.len() == 0 {
        assert(a + b == b);
    } else {
        assert((a + b)[0] == a[0]);
        if a[0] != '/' {
            assert((a + b).skip(1) == a.skip(1) + b);
            lemma_part_len_before(a.skip(1), b);
        }
    }
}

proof fn lemma_whole_part(s: Seq<char>)
    requires
        !s.contains('/'),
    ensures
        part_len(s) == s.len(),
    decreases s.len(),
{
    if s.len() > 0 {
        assert(s.contains(s[0]));
        assert forall|c: char| s.skip(1).contains(c) implies s.contains(c) by {
            let i = s.skip(1).index_of(c);
            assert(s[i + 1] == c);
        }
        lemma_whole_part(s.skip(1));
    }
}

/// A path is split at each slash and nowhere else: the parts of two paths with
/// a slash between them are those of the first and then those of the second; a
/// text without a slash is one part, unless it is empty or a single dot, which
/// are none.
pub proof fn parts_end_at_slashes(a: Seq<char>, b: Seq<char>)
    ensures
        parts_of(a + seq!['/'] + b) == parts_of(a) + parts_of(b),
        !a.contains('/') ==> parts_of(a) == if a.len() == 0 || a == seq!['.'] {
            Seq::<Seq<char>>::empty()
        } else {
            seq![a]
        },
    decreases a.len(),
{
    let tail = seq!['/'] + b;
    let all = a + seq!['/'] + b;
    assert(all == a + tail);
    assert(tail.skip(1) == b);
    assert(parts_of(tail) == parts_of(b));
    lemma_part_len_bound(a);
    if !a.contains('/') && a.len() > 0 {
        lemma_whole_part(a);
        assert(a.contains(a[0]));
        assert(a.take(a.len() as int) == a);
        assert(a.skip(a.len() as int) == Seq::<char>::empty());
        assert(parts_of(Seq::<char>::empty()) == Seq::<Seq<char>>::empty());
        assert(seq![a] + Seq::<Seq<char>>::empty() == seq![a]);
    }
    if a.len() == 0 {
        assert(all == tail);
        assert(parts_of(a) + parts_of(b) == parts_of(b));
    } else if a[0] == '/' {
        assert(all[0] == a[0]);
        assert(all.skip(1) == a.skip(1) + seq!['/'] + b);
        parts_end_at_slashes(a.skip(1), b);
    } else {
        let n = part_len(a) as int;
        lemma_part_len_before(a, tail);
        assert(all[0] == a[0]);
        assert(all.take(n) == a.take(n));
        assert(all.skip(n) == a.skip(n) + seq!['/'] + b);
        parts_end_at_slashes(a.skip(n), b);
        if a.take(n) != seq!['.'] {
            assert(parts_of(a) + parts_of(b) == seq![a.take(n)] + (parts_of(a.skip(n)) + parts_of(
                b,
            )));
        }
    }
}

/// Two paths are the same just if their parts are, and both or neither start
/// at the root, and both or neither start with a single dot.
pub proof fn paths_are_the_same_by_parts(a: Seq<char>, b: Seq<char>)
    ensures
        same_path(a, b) <==> {
            &&& parts_of(a) == parts_of(b)
            &&& (a.len() > 0 && a[0] == '/') == (b.len() > 0 && b[0] == '/')
            &&& (a == seq!['.'] || (a.len() > 1 && a[0] == '.' && a[1] == '/')) == (b == seq!['.']
                || (b.len() > 1 && b[0] == '.' && b[1] == '/'))
        },
{
    if a.len() == 1 && a[0] == '.' {
        assert(a =~= seq!['.']);
    }
    if b.len() == 1 && b[0] == '.' {
        assert(b =~= seq!['.']);
    }
}

/// A byte string comes before another one, or is it, just if it is the start
/// of it, or has the smaller byte at the first place at which they differ.
pub proof fn bytes_are_ordered_by_the_first_difference(a: Seq<u8>, b: Seq<u8>)
    ensures
        bytes_le(a, b) <==> {
            ||| a.len() <= b.len() && b.take(a.len() as int) == a
            ||| exists|k: int|
                0 <= k < a.len() && k < b.len() && a.take(k) == b.take(k) && #[trigger] a[k] < b[k]
        },
    decreases a.len(),
{
    if a.len() == 0 {
        assert(b.take(0) == a);
    } else if b.len() == 0 {
    } else if a[0] != b[0] {
        if a[0] < b[0] {
            assert(a.take(0) == b.take(0));
        } else {
            assert(a.len() <= b.len() ==> b.take(a.len() as int)[0] == b[0]);
            assert forall|k: int| 0 <= k < a.len() && k < b.len() && a.take(k) == b.take(k) implies !(
            #[trigger] a[k] < b[k]) by {
                if k > 0 {
                    assert(a.take(k)[0] == b.take(k)[0]);
                }
            }
        }
    } else {
        let x = a.skip(1);
        let y = b.skip(1);
        bytes_are_ordered_by_the_first_difference(x, y);
        if bytes_le(x, y) {
            if x.len() <= y.len() && y.take(x.len() as int) == x {
                assert forall|i: int| 0 <= i < a.len() implies #[trigger] b.take(a.len() as int)[i]
                    == a[i] by {
                    if i > 0 {
                        assert(y.take(x.len() as int)[i - 1] == x[i - 1]);
                    }
                }
                assert(b.take(a.len() as int) == a);
            } else {
                let k = choose|k: int|
                    0 <= k < x.len() && k < y.len() && x.take(k) == y.take(k) && #[trigger] x[k] < y[k];
                assert forall|i: int| 0 <= i < k + 1 implies #[trigger] a.take(k + 1)[i] == b.take(
                    k + 1,
                )[i] by {
                    if i > 0 {
                        assert(x.take(k)[i - 1] == y.take(k)[i - 1]);
                    }
                }
                assert(a.take(k + 1) == b.take(k + 1));
                assert(a[k + 1] < b[k + 1]);
            }
        } else {
            if a.len() <= b.len() && b.take(a.len() as int) == a {
                assert forall|i: int| 0 <= i < x.len() implies #[trigger] y.take(x.len() as int)[i]
                    == x[i] by {
                    assert(b.take(a.len() as int)[i + 1] == a[i + 1]);
                }
                assert(y.take(x.len() as int) == x);
            }
            assert forall|k: int| 0 <= k < a.len() && k < b.len() && a.take(k) == b.take(k) implies !(
            #[trigger] a[k] < b[k]) by {
                if k > 0 && a[k] < b[k] {
                    assert forall|i: int| 0 <= i < k - 1 implies #[trigger] x.take(k - 1)[i] == y.take(
                        k - 1,
                    )[i] by {
                        assert(a.take(k)[i + 1] == b.take(k)[i + 1]);
                    }
                    assert(x.take(k - 1) == y.take(k - 1));
                    assert(x[k - 1] < y[k - 1]);
                }
            }
        }
    }
}

/// Places in order name every byte string just once, each no later in a
/// dictionary than the next, and equal ones in the order in which they stand.
pub proof fn sorted_places_name_all(keys: Seq<Seq<u8>>, places: Seq<usize>)
    requires
        is_sorted_order(keys, places),
    ensures
        places.len() == keys.len(),
        places.no_duplicates(),
        forall|i: int| 0 <= i < places.len() ==> 0 <= #[trigger] places[i] < keys.len(),
        at_places(keys, places).len() == keys.len(),
        forall|i: int, j: int|
            0 <= i < j < places.len() ==> bytes_le(
                #[trigger] at_places(keys, places)[i],
                #[trigger] at_places(keys, places)[j],
            ),
        forall|i: int, j: int|
            0 <= i < j < places.len() && keys[#[trigger] places[i] as int]
                == keys[#[trigger] places[j] as int] ==> places[i] < places[j],
{
    assert forall|i: int, j: int| 0 <= i < j < places.len() implies bytes_le(
        #[trigger] at_places(keys, places)[i],
        #[trigger] at_places(keys, places)[j],
    ) by {
        assert(at_places(keys, places)[i] == keys[places[i] as int]);
        assert(at_places(keys, places)[j] == keys[places[j] as int]);
    }
}

/// Models of lists of byte strings have every byte string of the list.
pub proof fn byte_strings_are_whole(v: Seq<Vec<u8>>)
    ensures
        byte_views(v).len() == v.len(),
        forall|i: int| 0 <= i < v.len() ==> #[trigger] byte_views(v)[i] == v[i]@,
{
}

/// Under each text that a table is walked by stands the value at the same place
/// of the walk, and nothing stands under any other.
pub proof fn tables_have_what_they_are_walked_by<V>(table: Table<V>, key: Seq<char>, i: int)
    requires
        table.keys().no_duplicates(),
        0 <= i < table.keys().len(),
    ensures
        table@.contains_key(table.keys()[i]),
        table@[table.keys()[i]] == table.values()[i],
        table@.contains_key(key) <==> table.keys().contains(key),
{
    assert(table.keys().contains(table.keys()[i]));
    assert(table.keys().index_of(table.keys()[i]) == i);
}

} // verus!
