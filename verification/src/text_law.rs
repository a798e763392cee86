//! What reading and writing of texts means: parts, words, numerals and white space.
use vstd::prelude::*;

use crate::text::{
    all_digits, digit_char, digits_value, is_digit, is_space, join, lower, lower_char, numeral,
    parsed, replaced, split, trim, trim_end, trim_start, without_plus, word_state, words,
};

verus! {

/// No character of a text is `c`.
pub open spec fn lacks(s: Seq<char>, c: char) -> bool {
    forall|i: int| 0 <= i < s.len() ==> #[trigger] s[i] != c
}

/// All characters of a text are white space.
pub open spec fn blank(s: Seq<char>) -> bool {
    forall|i: int| 0 <= i < s.len() ==> is_space(#[trigger] s[i])
}

/// A text without white space that is not empty.
pub open spec fn solid(s: Seq<char>) -> bool {
    s.len() > 0 && forall|i: int| 0 <= i < s.len() ==> !is_space(#[trigger] s[i])
}

/// The characters that are white space are these.
pub proof fn white_space_is_known(c: char)
    ensures
        is_space(' '),
        is_space('\t'),
        is_space('\n'),
        is_space('\r'),
        '!' <= c && c <= '~' ==> !is_space(c),
{
}

/// The parts of a text hold no separator, and joined by it they are the text.
pub proof fn split_parts_join_to_text(s: Seq<char>, sep: char)
    ensures
        split(s, sep).len() >= 1,
        forall|i: int| 0 <= i < split(s, sep).len() ==> lacks(#[trigger] split(s, sep)[i], sep),
        join(split(s, sep), seq![sep]) == s,
    decreases s.len(),
{
    let p = split(s, sep);
    if s.len() == 0 {
        assert(join(p, seq![sep]) =~= s);
    } else {
        let t = s.drop_last();
        let front = split(t, sep);
        split_parts_join_to_text(t, sep);
        assert(t.push(s.last()) =~= s);
        if s.last() == sep {
            assert(p.drop_last() =~= front);
            assert(join(p, seq![sep]) =~= s);
        } else {
            let last = front.last().push(s.last());
            assert(p.drop_last() =~= front.drop_last());
            assert(p.last() == last);
            assert forall|i: int| 0 <= i < p.len() implies lacks(#[trigger] p[i], sep) by {
                if i < p.len() - 1 {
                    assert(p[i] == front[i]);
                    assert(lacks(front[i], sep));
                } else {
                    assert(lacks(front[front.len() - 1], sep));
                    assert forall|k: int| 0 <= k < last.len() implies #[trigger] last[k] != sep by {
                        if k < last.len() - 1 {
                            assert(front.last()[k] != sep);
                        }
                    }
                }
            }
            if front.len() == 1 {
                assert(front[0] == front.last());
                assert(join(p, seq![sep]) =~= s);
            } else {
                assert(join(p, seq![sep]) =~= s);
            }
        }
    }
}

/// The text without its white space.
pub open spec fn squeezed(s: Seq<char>) -> Seq<char>
    decreases s.len(),
{
    if s.len() == 0 {
        Seq::empty()
    } else if is_space(s.last()) {
        squeezed(s.drop_last())
    } else {
        squeezed(s.drop_last()).push(s.last())
    }
}

/// Words are not empty and hold no white space, and one after the other they are the text
/// without its white space.
pub proof fn words_are_the_solid_runs(s: Seq<char>)
    ensures
        forall|i: int| 0 <= i < words(s).len() ==> solid(#[trigger] words(s)[i]),
        join(words(s), Seq::empty()) == squeezed(s),
        words(s).len() == 0 <==> blank(s),
{
    let (done, current) = word_state(s);
    lemma_word_state(s);
    lemma_squeezed(s);
    if current.len() > 0 {
        let w = done.push(current);
        assert(w.drop_last() =~= done);
        lemma_join_plain(w);
    }
}

proof fn lemma_join_plain(w: Seq<Seq<char>>)
    requires
        w.len() > 0,
    ensures
        join(w, Seq::empty()) == join(w.drop_last(), Seq::empty()) + w.last(),
{
    if w.len() == 1 {
        assert(w.drop_last().len() == 0);
        assert(join(w, Seq::empty()) =~= join(w.drop_last(), Seq::empty()) + w.last());
    } else {
        let a = join(w.drop_last(), Seq::empty());
        assert(a + Seq::<char>::empty() =~= a);
    }
}

proof fn lemma_word_state(s: Seq<char>)
    ensures
        ({
            let (done, current) = word_state(s);
            &&& forall|i: int| 0 <= i < done.len() ==> solid(#[trigger] done[i])
            &&& current.len() > 0 ==> solid(current)
            &&& join(done, Seq::empty()) + current == squeezed(s)
        }),
    decreases s.len(),
{
    let (done, current) = word_state(s);
    if s.len() == 0 {
        assert(join(done, Seq::empty()) + current =~= squeezed(s));
    } else {
        let (d0, c0) = word_state(s.drop_last());
        lemma_word_state(s.drop_last());
        if !is_space(s.last()) {
            assert forall|i: int| 0 <= i < current.len() implies !is_space(
                #[trigger] current[i],
            ) by {
                if i < c0.len() {
                    assert(current[i] == c0[i]);
                }
            }
            assert(join(done, Seq::empty()) + current =~= squeezed(s));
        } else if c0.len() > 0 {
            assert forall|i: int| 0 <= i < done.len() implies solid(#[trigger] done[i]) by {
                if i < d0.len() {
                    assert(done[i] == d0[i]);
                }
            }
            assert(done.drop_last() =~= d0);
            lemma_join_plain(done);
            assert(join(done, Seq::empty()) + current =~= squeezed(s));
        }
    }
}

proof fn lemma_squeezed(s: Seq<char>)
    ensures
        squeezed(s).len() == 0 <==> blank(s),
        words(s).len() == 0 <==> squeezed(s).len() == 0,
    decreases s.len(),
{
    lemma_word_state(s);
    let (done, current) = word_state(s);
    if done.len() > 0 {
        lemma_join_plain(done);
        assert(solid(done[done.len() - 1]));
    }
    if s.len() > 0 {
        let t = s.drop_last();
        lemma_squeezed(t);
        if blank(t) && is_space(s.last()) {
            assert forall|i: int| 0 <= i < s.len() implies is_space(#[trigger] s[i]) by {
                if i < t.len() {
                    assert(s[i] == t[i]);
                }
            }
        }
        if blank(s) {
            assert forall|i: int| 0 <= i < t.len() implies is_space(#[trigger] t[i]) by {
                assert(t[i] == s[i]);
            }
            assert(is_space(s[s.len() - 1]));
        }
    }
}

/// Words joined by a space are read back as those words.
pub proof fn joined_words_read_back(w: Seq<Seq<char>>)
    requires
        forall|i: int| 0 <= i < w.len() ==> solid(#[trigger] w[i]),
    ensures
        words(join(w, seq![' '])) == w,
        w.len() > 0 ==> word_state(join(w, seq![' '])) == (w.drop_last(), w.last()),
    decreases w.len(),
{
    if w.len() == 0 {
        assert(words(join(w, seq![' '])) =~= w);
    } else if w.len() == 1 {
        lemma_push_word(Seq::empty(), w[0]);
        assert(Seq::<char>::empty() + w[0] =~= w[0]);
        assert(solid(w[0]));
        assert(w.drop_last() =~= Seq::empty());
        assert(words(join(w, seq![' '])) =~= w);
    } else {
        let front = w.drop_last();
        assert forall|i: int| 0 <= i < front.len() implies solid(#[trigger] front[i]) by {
            assert(front[i] == w[i]);
        }
        joined_words_read_back(front);
        let a = join(front, seq![' ']) + seq![' '];
        assert(a.drop_last() =~= join(front, seq![' ']));
        assert(a.last() == ' ');
        assert(solid(w[w.len() - 2]));
        assert(front.last() == w[w.len() - 2]);
        assert(word_state(a) == (front.drop_last().push(front.last()), Seq::<char>::empty()));
        assert(front.drop_last().push(front.last()) =~= front);
        assert(solid(w[w.len() - 1]));
        lemma_push_word(a, w.last());
        assert(words(join(w, seq![' '])) =~= w);
    }
}

proof fn lemma_push_word(a: Seq<char>, x: Seq<char>)
    requires
        forall|i: int| 0 <= i < x.len() ==> !is_space(#[trigger] x[i]),
    ensures
        word_state(a + x) == (word_state(a).0, word_state(a).1 + x),
    decreases x.len(),
{
    if x.len() == 0 {
        assert(a + x =~= a);
        assert(word_state(a).1 + x =~= word_state(a).1);
    } else {
        let y = x.drop_last();
        assert forall|i: int| 0 <= i < y.len() implies !is_space(#[trigger] y[i]) by {
            assert(y[i] == x[i]);
        }
        lemma_push_word(a, y);
        assert((a + x).drop_last() =~= a + y);
        assert((a + x).last() == x[x.len() - 1]);
        assert((word_state(a).1 + y).push(x.last()) =~= word_state(a).1 + x);
    }
}

/// A numeral is read back as its number, and is its shortest numeral.
pub proof fn numerals_read_back(n: nat, max: nat)
    ensures
        parsed(numeral(n), max) == if n <= max {
            Some(n)
        } else {
            None
        },
        all_digits(numeral(n)),
        digits_value(numeral(n)) == n,
        numeral(n).len() >= 1,
        n > 0 ==> numeral(n)[0] != '0',
        n < 10 ==> numeral(n).len() == 1,
        n >= 10 ==> numeral(n).len() == numeral(n / 10).len() + 1,
    decreases n,
{
    let s = numeral(n);
    if n < 10 {
        reveal_with_fuel(digits_value, 2);
        assert(s.drop_last().len() == 0);
        assert(digits_value(s) == n);
    } else {
        numerals_read_back(n / 10, max);
        assert(s.drop_last() =~= numeral(n / 10));
        assert forall|i: int| 0 <= i < s.len() implies is_digit(#[trigger] s[i]) by {
            if i < s.len() - 1 {
                assert(s[i] == numeral(n / 10)[i]);
            }
        }
    }
    assert(is_digit(s[0]));
    assert(without_plus(s) == s);
}

/// A text is read as a number exactly where it is, but for one plus sign in front, a run of
/// digits, and its number is not above the bound.
pub proof fn numbers_are_read(d: Seq<char>, max: nat)
    requires
        d.len() > 0,
    ensures
        all_digits(d) && digits_value(d) <= max ==> parsed(d, max) == Some(digits_value(d))
            && parsed(seq!['+'] + d, max) == Some(digits_value(d)),
        d[0] != '+' && !all_digits(d) ==> parsed(d, max) is None && parsed(seq!['+'] + d, max) is None,
        all_digits(d) && digits_value(d) > max ==> parsed(d, max) is None && parsed(
            seq!['+'] + d,
            max,
        ) is None,
        parsed(Seq::empty(), max) is None,
        parsed(seq!['+'], max) is None,
{
    let p = seq!['+'] + d;
    assert(p.drop_first() =~= d);
    assert(seq!['+'].drop_first() =~= Seq::<char>::empty());
    if all_digits(d) {
        assert(is_digit(d[0]));
    }
}

/// Each digit is worth ten times the one behind it.
pub proof fn digits_are_decimal(s: Seq<char>, d: nat)
    requires
        d < 10,
    ensures
        digits_value(s.push(digit_char(d))) == 10 * digits_value(s) + d,
        digits_value(Seq::empty()) == 0,
        digit_char(0) == '0',
        digit_char(1) == '1',
        digit_char(9) == '9',
{
    assert(s.push(digit_char(d)).drop_last() =~= s);
}

/// Trimming takes away white space from both ends and nothing else, and none is left there.
pub proof fn trimming_takes_blanks_from_the_ends(s: Seq<char>)
    ensures
        exists|a: Seq<char>, b: Seq<char>|
            blank(a) && blank(b) && s == #[trigger] (a + trim(s) + b),
        trim(s).len() > 0 ==> !is_space(trim(s)[0]) && !is_space(trim(s).last()),
        trim(s).len() == 0 <==> blank(s),
{
    let t = trim_start(s);
    let a = lemma_trim_start(s);
    let b = lemma_trim_end(t);
    assert(a + trim(s) + b =~= s);
    if trim(s).len() == 0 {
        assert forall|i: int| 0 <= i < s.len() implies is_space(#[trigger] s[i]) by {
            if i < a.len() {
                assert(s[i] == a[i]);
            } else {
                assert(s[i] == b[i - a.len()]);
            }
        }
    } else {
        assert(t[0] == trim(s)[0]);
        assert(s[a.len() as int] == t[0]);
    }
}

proof fn lemma_trim_start(s: Seq<char>) -> (a: Seq<char>)
    ensures
        blank(a),
        s == a + trim_start(s),
        trim_start(s).len() > 0 ==> !is_space(trim_start(s)[0]),
    decreases s.len(),
{
    if s.len() > 0 && is_space(s[0]) {
        let b = lemma_trim_start(s.drop_first());
        let a = seq![s[0]] + b;
        assert(seq![s[0]] + s.drop_first() =~= s);
        assert(a + trim_start(s) =~= seq![s[0]] + (b + trim_start(s.drop_first())));
        assert forall|i: int| 0 <= i < a.len() implies is_space(#[trigger] a[i]) by {
            if i > 0 {
                assert(a[i] == b[i - 1]);
            }
        }
        a
    } else {
        assert(Seq::<char>::empty() + s =~= s);
        Seq::empty()
    }
}

proof fn lemma_trim_end(s: Seq<char>) -> (b: Seq<char>)
    ensures
        blank(b),
        s == trim_end(s) + b,
        trim_end(s).len() > 0 ==> !is_space(trim_end(s).last()),
    decreases s.len(),
{
    if s.len() > 0 && is_space(s.last()) {
        let a = lemma_trim_end(s.drop_last());
        let b = a.push(s.last());
        assert(s.drop_last().push(s.last()) =~= s);
        assert(trim_end(s) + b =~= (trim_end(s.drop_last()) + a).push(s.last()));
        assert forall|i: int| 0 <= i < b.len() implies is_space(#[trigger] b[i]) by {
            if i < a.len() {
                assert(b[i] == a[i]);
            }
        }
        b
    } else {
        assert(s + Seq::<char>::empty() =~= s);
        Seq::empty()
    }
}

/// Lower case changes ASCII capital letters to the letters 32 places on, and nothing else.
pub proof fn lower_case_changes_capitals(s: Seq<char>, i: int)
    requires
        0 <= i < s.len(),
    ensures
        lower(s).len() == s.len(),
        'A' <= s[i] && s[i] <= 'Z' ==> lower(s)[i] as nat == s[i] as nat + 32,
        !('A' <= s[i] && s[i] <= 'Z') ==> lower(s)[i] == s[i],
        lower(lower(s)) == lower(s),
{
    assert forall|k: int| 0 <= k < s.len() implies lower_char(lower_char(s[k])) == lower_char(
        s[k],
    ) by {
    }
    assert(lower(lower(s)) =~= lower(s));
}

/// Replacing changes the one character to the other, and nothing else.
pub proof fn replacing_changes_one_character(s: Seq<char>, from: char, to: char, i: int)
    requires
        0 <= i < s.len(),
    ensures
        replaced(s, from, to).len() == s.len(),
        s[i] == from ==> replaced(s, from, to)[i] == to,
        s[i] != from ==> replaced(s, from, to)[i] == s[i],
{
}

/// Joined texts hold each text and, between any two, the separator.
pub proof fn joined_texts_alternate(p: Seq<Seq<char>>, sep: Seq<char>, x: Seq<char>)
    ensures
        join(Seq::empty(), sep) == Seq::<char>::empty(),
        join(seq![x], sep) == x,
        p.len() > 0 ==> join(p.push(x), sep) == join(p, sep) + sep + x,
{
    assert(p.push(x).drop_last() =~= p);
}

/// Texts without a separator, joined by it, are split back into those texts.
pub proof fn joined_parts_split_back(p: Seq<Seq<char>>, sep: char)
    requires
        p.len() > 0,
        forall|i: int| 0 <= i < p.len() ==> lacks(#[trigger] p[i], sep),
    ensures
        split(join(p, seq![sep]), sep) == p,
    decreases p.len(),
{
    if p.len() == 1 {
        lemma_split_push(Seq::empty(), p[0], sep);
        assert(Seq::<char>::empty() + p[0] =~= p[0]);
        let e = split(Seq::<char>::empty(), sep);
        assert(e.last() + p[0] =~= p[0]);
        assert(e.drop_last().push(e.last() + p[0]) =~= p);
    } else {
        let front = p.drop_last();
        assert forall|i: int| 0 <= i < front.len() implies lacks(#[trigger] front[i], sep) by {
            assert(front[i] == p[i]);
        }
        joined_parts_split_back(front, sep);
        let a = join(front, seq![sep]) + seq![sep];
        assert(a.drop_last() =~= join(front, seq![sep]));
        assert(a.last() == sep);
        assert(split(a, sep) == front.push(Seq::empty()));
        assert(lacks(p[p.len() - 1], sep));
        lemma_split_push(a, p.last(), sep);
        assert(front.push(Seq::<char>::empty()).drop_last() =~= front);
        assert(Seq::<char>::empty() + p.last() =~= p.last());
        assert(front.push(p.last()) =~= p);
    }
}

proof fn lemma_split_push(a: Seq<char>, x: Seq<char>, sep: char)
    requires
        lacks(x, sep),
    ensures
        split(a, sep).len() >= 1,
        split(a + x, sep) == split(a, sep).drop_last().push(split(a, sep).last() + x),
    decreases x.len(),
{
    split_parts_join_to_text(a, sep);
    let p = split(a, sep);
    if x.len() == 0 {
        assert(a + x =~= a);
        assert(p.last() + x =~= p.last());
        assert(p.drop_last().push(p.last()) =~= p);
    } else {
        let y = x.drop_last();
        assert forall|i: int| 0 <= i < y.len() implies #[trigger] y[i] != sep by {
            assert(y[i] == x[i]);
        }
        lemma_split_push(a, y, sep);
        assert((a + x).drop_last() =~= a + y);
        assert((a + x).last() == x[x.len() - 1]);
        let q = p.drop_last().push(p.last() + y);
        assert(q.drop_last() =~= p.drop_last());
        assert((p.last() + y).push(x.last()) =~= p.last() + x);
    }
}

/// A text without white space at its ends stays under trimming.
pub proof fn solid_texts_stay(s: Seq<char>)
    requires
        s.len() > 0,
        !is_space(s[0]),
        !is_space(s.last()),
    ensures
        trim(s) == s,
{
}

/// A numeral holds neither white space nor a comma.
pub proof fn numerals_are_solid(n: nat)
    ensures
        solid(numeral(n)),
        lacks(numeral(n), ','),
        lacks(numeral(n), '-'),
{
    numerals_read_back(n, n);
    assert forall|i: int| 0 <= i < numeral(n).len() implies !is_space(#[trigger] numeral(n)[i])
        && numeral(n)[i] != ',' && numeral(n)[i] != '-' by {
        assert(is_digit(numeral(n)[i]));
    }
}

} // verus!
