//! Laws of searching, splitting and joining.

use vstd::prelude::*;
use crate::text;

verus! {

/// Whether no character of `s` is `c`.
pub open spec fn lacks(s: Seq<char>, c: char) -> bool {
    forall|i: int| 0 <= i < s.len() ==> #[trigger] s[i] != c
}

/// Whether no character of `s` is white space.
pub open spec fn no_white(s: Seq<char>) -> bool {
    forall|i: int| 0 <= i < s.len() ==> !text::is_white(#[trigger] s[i])
}

// ---------------------------------------------------------------------------
// Searching in texts that are put together
// ---------------------------------------------------------------------------

/// Whether no proper end of `pat` is also a beginning of it.
pub open spec fn borderless(pat: Seq<char>) -> bool {
    forall|k: int| 0 < k < pat.len() ==> #[trigger] pat.skip(k) != pat.take(pat.len() - k)
}

/// A pattern whose first character does not come again is borderless.
pub proof fn unique_head_is_borderless(pat: Seq<char>)
    requires
        forall|k: int| 0 < k < pat.len() ==> #[trigger] pat[k] != pat[0],
    ensures
        borderless(pat),
{
    assert forall|k: int| 0 < k < pat.len() implies #[trigger] pat.skip(k) != pat.take(
        pat.len() - k,
    ) by {
        assert(pat.skip(k)[0] == pat[k]);
        assert(pat.take(pat.len() - k)[0] == pat[0]);
    }
}

/// An occurrence that ends within `a` does not depend on what follows `a`.
pub proof fn occurs_before_seam(a: Seq<char>, b: Seq<char>, pat: Seq<char>, i: int)
    requires
        i + pat.len() <= a.len(),
    ensures
        text::occurs_at(a + b, pat, i) == text::occurs_at(a, pat, i),
{
    if 0 <= i {
        assert((a + b).subrange(i, i + pat.len()) =~= a.subrange(i, i + pat.len()));
    }
}

/// An occurrence that begins within `a` also ends there, where the first character behind `a`
/// stands only at the beginning of the pattern.
pub proof fn no_hit_across(a: Seq<char>, b: Seq<char>, pat: Seq<char>, j: int)
    requires
        b.len() > 0,
        forall|k: int| 0 < k < pat.len() ==> #[trigger] pat[k] != b[0],
        j < a.len(),
        text::occurs_at(a + b, pat, j),
    ensures
        text::occurs_at(a, pat, j),
{
    if j + pat.len() <= a.len() {
        occurs_before_seam(a, b, pat, j);
    } else {
        let k = a.len() - j;
        assert((a + b).subrange(j, j + pat.len())[k] == (a + b)[a.len() as int]);
        assert(pat[k] == b[0]);
    }
}

/// Where a borderless pattern is put behind a text that does not hold it, it is found there.
pub proof fn found_at_seam(a: Seq<char>, pat: Seq<char>, b: Seq<char>)
    requires
        pat.len() > 0,
        borderless(pat),
        !text::contains(a, pat),
    ensures
        text::find(a + pat + b, pat, 0) == Some(a.len() as int),
{
    let s = a + pat + b;
    let at = a.len() as int;
    assert(s.subrange(at, at + pat.len()) =~= pat);
    assert forall|j: int| 0 <= j < at implies !text::occurs_at(s, pat, j) by {
        if text::occurs_at(s, pat, j) {
            if j + pat.len() <= at {
                assert(s =~= a + (pat + b));
                occurs_before_seam(a, pat + b, pat, j);
            } else {
                let k = at - j;
                let hit = s.subrange(j, j + pat.len());
                assert(hit =~= pat);
                assert forall|i: int| 0 <= i < pat.len() - k implies pat.skip(k)[i] == pat.take(
                    pat.len() - k,
                )[i] by {
                    assert(hit[k + i] == s[at + i]);
                }
                assert(pat.skip(k) =~= pat.take(pat.len() - k));
            }
        }
    }
    text::find_is_unique(s, pat, 0, at);
}

/// Looking from the end of `a` on finds what looking in the rest finds.
pub proof fn find_behind(a: Seq<char>, b: Seq<char>, pat: Seq<char>)
    ensures
        text::find(a + b, pat, a.len() as int) == match text::find(b, pat, 0) {
            Some(i) => Some(a.len() + i),
            None => None,
        },
{
    text::find_in_rest(a + b, pat, a.len() as int, 0);
    assert((a + b).skip(a.len() as int) =~= b);
}

/// A text that lacks `c` holds no pattern with a `c` in it.
pub proof fn lacking_text_lacks_pattern(s: Seq<char>, pat: Seq<char>, k: int)
    requires
        0 <= k < pat.len(),
        lacks(s, pat[k]),
    ensures
        !text::contains(s, pat),
{
    assert forall|i: int| !text::occurs_at(s, pat, i) by {
        if text::occurs_at(s, pat, i) {
            assert(s.subrange(i, i + pat.len())[k] == s[i + k]);
        }
    }
}

// ---------------------------------------------------------------------------
// Splitting
// ---------------------------------------------------------------------------

/// Splitting a text gives pieces without the separator, and joining them with the separator
/// gives the text back.
pub proof fn split_and_join(s: Seq<char>, c: char)
    ensures
        text::split(s, c).len() >= 1,
        text::join(text::split(s, c), c) == s,
        forall|i: int| 0 <= i < text::split(s, c).len() ==> lacks(#[trigger] text::split(s, c)[i], c),
    decreases s.len(),
{
    let all = text::split(s, c);
    if s.len() == 0 {
        assert(all[0] =~= s);
    } else {
        let body = s.drop_last();
        let head = text::split(body, c);
        split_and_join(body, c);
        assert(s =~= body.push(s.last()));
        if s.last() == c {
            assert(all.drop_last() =~= head);
            assert(text::join(all, c) =~= body + seq![c] + Seq::<char>::empty());
            assert forall|i: int| 0 <= i < all.len() implies lacks(#[trigger] all[i], c) by {
                if i < head.len() {
                    assert(all[i] == head[i]);
                }
            }
        } else {
            assert(all.drop_last() =~= head.drop_last());
            assert(all.last() == head.last().push(s.last()));
            assert(text::join(all, c) =~= s);
            assert forall|i: int| 0 <= i < all.len() implies lacks(#[trigger] all[i], c) by {
                assert(lacks(head[head.len() - 1], c));
                if i < head.len() - 1 {
                    assert(all[i] == head[i]);
                }
            }
        }
    }
}

/// More characters without a separator make the last piece longer.
pub proof fn split_grows_last_piece(a: Seq<char>, b: Seq<char>, c: char)
    requires
        lacks(b, c),
    ensures
        text::split(a + b, c) == text::split(a, c).drop_last().push(text::split(a, c).last() + b),
    decreases b.len(),
{
    split_and_join(a, c);
    let head = text::split(a, c);
    if b.len() == 0 {
        assert(a + b =~= a);
        assert(head.last() + b =~= head.last());
        assert(head =~= head.drop_last().push(head.last()));
    } else {
        let shorter = b.drop_last();
        split_grows_last_piece(a, shorter, c);
        assert((a + b).drop_last() =~= a + shorter);
        assert((a + b).last() == b.last());
        let before = head.drop_last().push(head.last() + shorter);
        assert(before.drop_last() =~= head.drop_last());
        assert((head.last() + shorter).push(b.last()) =~= head.last() + b);
        assert(b.last() != c);
    }
}

/// A separator begins a new piece.
pub proof fn split_at_separator(a: Seq<char>, b: Seq<char>, c: char)
    requires
        lacks(b, c),
    ensures
        text::split(a + seq![c] + b, c) == text::split(a, c).push(b),
{
    let s = a + seq![c];
    assert(s.drop_last() =~= a);
    assert(text::split(s, c) == text::split(a, c).push(Seq::empty()));
    split_grows_last_piece(s, b, c);
    assert(text::split(a, c).push(Seq::<char>::empty()).drop_last() =~= text::split(a, c));
    assert(Seq::<char>::empty() + b =~= b);
}

/// A text without a separator is a single piece.
pub proof fn split_without_separator(s: Seq<char>, c: char)
    requires
        lacks(s, c),
    ensures
        text::split(s, c) == seq![s],
{
    let none = Seq::<char>::empty();
    split_grows_last_piece(none, s, c);
    assert(none + s =~= s);
    assert(text::split(none, c) =~= seq![none]);
    assert(text::split(s, c) =~= seq![s]);
}

/// The pieces of two texts with a separator between them are the pieces of the first and then
/// those of the second.
pub proof fn split_over_separator(a: Seq<char>, b: Seq<char>, c: char)
    ensures
        text::split(a + seq![c] + b, c) == text::split(a, c) + text::split(b, c),
    decreases b.len(),
{
    let s = a + seq![c] + b;
    split_and_join(a, c);
    split_and_join(b, c);
    if b.len() == 0 {
        assert(s.drop_last() =~= a);
        assert(s.last() == c);
        assert(text::split(s, c) =~= text::split(a, c) + text::split(b, c));
    } else {
        let shorter = b.drop_last();
        split_over_separator(a, shorter, c);
        split_and_join(shorter, c);
        assert(s.drop_last() =~= a + seq![c] + shorter);
        assert(s.last() == b.last());
        assert(text::split(s, c) =~= text::split(a, c) + text::split(b, c));
    }
}

/// The first piece of a text reaches up to the first separator.
pub proof fn first_piece_of(a: Seq<char>, rest: Seq<char>, c: char)
    requires
        lacks(a, c),
        rest.len() > 0 ==> rest[0] == c,
    ensures
        text::split(a + rest, c).len() > 0,
        text::split(a + rest, c)[0] == a,
{
    split_without_separator(a, c);
    if rest.len() == 0 {
        assert(a + rest =~= a);
    } else {
        let tail = rest.drop_first();
        assert(a + rest =~= a + seq![c] + tail);
        split_over_separator(a, tail, c);
        assert(text::split(a + rest, c)[0] == seq![a][0]);
    }
}

/// Where the first separator of a text stands: before it the text lacks the separator.
pub proof fn up_to_separator(s: Seq<char>, c: char) -> (parts: (Seq<char>, Seq<char>))
    ensures
        s == parts.0 + parts.1,
        lacks(parts.0, c),
        parts.1.len() > 0 ==> parts.1[0] == c,
    decreases s.len(),
{
    if s.len() == 0 || s[0] == c {
        assert(s =~= Seq::<char>::empty() + s);
        (Seq::empty(), s)
    } else {
        let (a, rest) = up_to_separator(s.drop_first(), c);
        let front = seq![s[0]] + a;
        assert(s =~= seq![s[0]] + s.drop_first());
        assert(s =~= front + rest);
        assert forall|i: int| 0 <= i < front.len() implies #[trigger] front[i] != c by {
            if i > 0 {
                assert(front[i] == a[i - 1]);
            }
        }
        (front, rest)
    }
}

// ---------------------------------------------------------------------------
// Words
// ---------------------------------------------------------------------------

/// Words are not empty and hold no white space.
pub proof fn words_are_words(s: Seq<char>)
    ensures
        forall|i: int|
            0 <= i < text::words(s).len() ==> (#[trigger] text::words(s)[i]).len() > 0 && no_white(
                text::words(s)[i],
            ),
    decreases s.len(),
{
    let all = text::words(s);
    if s.len() > 0 {
        if text::is_white(s[0]) {
            words_are_words(s.drop_first());
            assert(all == text::words(s.drop_first()));
        } else {
            text::word_len_bounds(s.drop_first());
            text::word_len_bounds(s);
            let n = text::word_len(s) as int;
            let rest = s.skip(n);
            words_are_words(rest);
            assert forall|i: int| 0 <= i < all.len() implies (#[trigger] all[i]).len() > 0
                && no_white(all[i]) by {
                if i == 0 {
                    assert(all[0] == s.take(n));
                } else {
                    assert(all[i] == text::words(rest)[i - 1]);
                }
            }
        }
    }
}

/// A word, then the end or white space: the word is the first one.
pub proof fn first_word_of(w: Seq<char>, rest: Seq<char>)
    requires
        w.len() > 0,
        no_white(w),
        rest.len() > 0 ==> text::is_white(rest[0]),
    ensures
        text::words(w + rest) == seq![w] + text::words(rest),
{
    let s = w + rest;
    text::word_len_bounds(s);
    text::word_len_bounds(s.drop_first());
    let n = text::word_len(s) as int;
    assert(s[0] == w[0]);
    if n < w.len() {
        assert(s[n] == w[n]);
    } else if n > w.len() {
        assert(!text::is_white(s[w.len() as int]));
    }
    assert(s.take(n) =~= w);
    assert(s.skip(n) =~= rest);
}

/// Joining puts the first piece, the separator and the joined rest one after the other.
pub proof fn join_from_left(first: Seq<char>, rest: Seq<Seq<char>>, sep: char)
    requires
        rest.len() > 0,
    ensures
        text::join(seq![first] + rest, sep) == first + seq![sep] + text::join(rest, sep),
    decreases rest.len(),
{
    let all = seq![first] + rest;
    assert(all.last() == rest.last());
    assert(all.drop_last() =~= seq![first] + rest.drop_last());
    if rest.len() == 1 {
        assert(all.drop_last() =~= seq![first]);
        assert(text::join(seq![first], sep) == first);
        assert(text::join(rest, sep) == rest[0]);
        assert(text::join(all, sep) =~= first + seq![sep] + rest[0]);
    } else {
        join_from_left(first, rest.drop_last(), sep);
        assert(text::join(all, sep) =~= first + seq![sep] + text::join(rest, sep));
    }
}

/// Whether white space stands in `s` only as single spaces between other characters.
pub open spec fn tidy(s: Seq<char>) -> bool {
    forall|i: int|
        0 <= i < s.len() && text::is_white(#[trigger] s[i]) ==> s[i] == ' ' && 0 < i < s.len() - 1
            && !text::is_white(s[i - 1]) && !text::is_white(s[i + 1])
}

/// Words joined by spaces are a tidy text.
pub proof fn joined_words_are_tidy(list: Seq<Seq<char>>)
    requires
        forall|i: int| 0 <= i < list.len() ==> (#[trigger] list[i]).len() > 0 && no_white(list[i]),
    ensures
        tidy(text::join(list, ' ')),
        list.len() > 0 ==> text::join(list, ' ').len() > 0,
    decreases list.len(),
{
    let all = text::join(list, ' ');
    if list.len() == 1 {
        assert(no_white(list[0]));
    } else if list.len() > 1 {
        let shorter = list.drop_last();
        let w = list.last();
        assert(w == list[list.len() - 1]);
        assert forall|i: int| 0 <= i < shorter.len() implies (#[trigger] shorter[i]).len() > 0
            && no_white(shorter[i]) by {
            assert(shorter[i] == list[i]);
        }
        joined_words_are_tidy(shorter);
        let head = text::join(shorter, ' ');
        let n = head.len() as int;
        assert(!text::is_white(head[n - 1]));
        assert(!text::is_white(w[0]));
        assert forall|i: int| 0 <= i < all.len() && text::is_white(#[trigger] all[i]) implies all[i]
            == ' ' && 0 < i < all.len() - 1 && !text::is_white(all[i - 1]) && !text::is_white(
            all[i + 1],
        ) by {
            if i < n {
                assert(all[i] == head[i]);
                assert(all[i - 1] == head[i - 1]);
                assert(all[i + 1] == head[i + 1]);
            } else if i == n {
                assert(all[i - 1] == head[n - 1]);
                assert(all[i + 1] == w[0]);
            } else {
                assert(all[i] == w[i - n - 1]);
            }
        }
    }
}

/// The words of a tidy text, joined by spaces, are the text.
pub proof fn tidy_text_stays(s: Seq<char>)
    requires
        tidy(s),
    ensures
        text::join(text::words(s), ' ') == s,
    decreases s.len(),
{
    if s.len() == 0 {
        assert(s =~= Seq::<char>::empty());
    } else {
        assert(!text::is_white(s[0]));
        text::word_len_bounds(s);
        let n = text::word_len(s) as int;
        let w = s.take(n);
        let rest = s.skip(n);
        assert(w + rest =~= s);
        assert(no_white(w)) by {
            assert forall|i: int| 0 <= i < w.len() implies !text::is_white(#[trigger] w[i]) by {
                assert(w[i] == s[i]);
            }
        }
        if rest.len() > 0 {
            assert(rest[0] == s[n]);
        }
        first_word_of(w, rest);
        if n == s.len() {
            assert(rest =~= Seq::<char>::empty());
            assert(text::words(s) =~= seq![w]);
            assert(w =~= s);
        } else {
            let tail = s.skip(n + 1);
            assert(rest.drop_first() =~= tail);
            assert forall|i: int| 0 <= i < tail.len() && text::is_white(#[trigger] tail[i]) implies
                tail[i] == ' ' && 0 < i < tail.len() - 1 && !text::is_white(tail[i - 1])
                && !text::is_white(tail[i + 1]) by {
                assert(tail[i] == s[n + 1 + i]);
                assert(tail[i + 1] == s[n + 2 + i]);
                if i > 0 {
                    assert(tail[i - 1] == s[n + i]);
                }
            }
            tidy_text_stays(tail);
            assert(tail.len() > 0);
            assert(tail[0] == s[n + 1]);
            assert(text::words(tail).len() > 0);
            join_from_left(w, text::words(tail), ' ');
            assert(w + seq![' '] + tail =~= s);
        }
    }
}

/// Where a pattern does not stand, replacing it changes nothing.
pub proof fn nothing_to_replace(s: Seq<char>, pat: Seq<char>, to: Seq<char>)
    requires
        !text::contains(s, pat),
    ensures
        text::replace(s, pat, to) == s,
{
    text::find_is_first(s, pat, 0);
}

/// Replacing does not bring in a character that neither the text nor the replacement holds.
pub proof fn replace_keeps_lacking(s: Seq<char>, pat: Seq<char>, to: Seq<char>, c: char)
    requires
        lacks(s, c),
        lacks(to, c),
    ensures
        lacks(text::replace(s, pat, to), c),
    decreases s.len(),
{
    if let Some(i) = text::find(s, pat, 0) {
        if 0 < pat.len() && 0 <= i && i + pat.len() <= s.len() {
            let rest = s.skip(i + pat.len());
            assert(lacks(rest, c));
            replace_keeps_lacking(rest, pat, to, c);
        }
    }
}

/// The words of a text hold only characters of the text.
pub proof fn words_keep_lacking(s: Seq<char>, c: char)
    requires
        lacks(s, c),
    ensures
        forall|i: int| 0 <= i < text::words(s).len() ==> lacks(#[trigger] text::words(s)[i], c),
    decreases s.len(),
{
    if s.len() > 0 {
        if text::is_white(s[0]) {
            assert(lacks(s.drop_first(), c));
            words_keep_lacking(s.drop_first(), c);
            assert(text::words(s) == text::words(s.drop_first()));
        } else {
            text::word_len_bounds(s.drop_first());
            let n = 1 + text::word_len(s.drop_first()) as int;
            assert(lacks(s.skip(n), c));
            words_keep_lacking(s.skip(n), c);
            let all = text::words(s);
            assert forall|i: int| 0 <= i < all.len() implies lacks(#[trigger] all[i], c) by {
                if i == 0 {
                    assert(all[0] == s.take(n));
                } else {
                    assert(all[i] == text::words(s.skip(n))[i - 1]);
                }
            }
        }
    }
}

/// Joining brings in no character but the separator.
pub proof fn join_keeps_lacking(list: Seq<Seq<char>>, sep: char, c: char)
    requires
        forall|i: int| 0 <= i < list.len() ==> lacks(#[trigger] list[i], c),
        sep != c,
    ensures
        lacks(text::join(list, sep), c),
    decreases list.len(),
{
    if list.len() == 1 {
        assert(lacks(list[0], c));
    } else if list.len() > 1 {
        let shorter = list.drop_last();
        assert forall|i: int| 0 <= i < shorter.len() implies lacks(#[trigger] shorter[i], c) by {
            assert(shorter[i] == list[i]);
        }
        join_keeps_lacking(shorter, sep, c);
        assert(lacks(list[list.len() - 1], c));
    }
}

// ---------------------------------------------------------------------------
// Patterns that are gone stay away
// ---------------------------------------------------------------------------

/// A part of a text holds no pattern that the text does not hold.
pub proof fn parts_hold_no_new_pattern(s: Seq<char>, from: int, to: int, pat: Seq<char>)
    requires
        0 <= from <= to <= s.len(),
        !text::contains(s, pat),
    ensures
        !text::contains(s.subrange(from, to), pat),
{
    let part = s.subrange(from, to);
    assert forall|i: int| !text::occurs_at(part, pat, i) by {
        if text::occurs_at(part, pat, i) {
            assert(part.subrange(i, i + pat.len()) =~= s.subrange(
                from + i,
                from + i + pat.len(),
            ));
            assert(text::occurs_at(s, pat, from + i));
        }
    }
}

/// Two texts put together around a character that is not in the pattern hold the pattern only
/// where one of them does.
pub proof fn no_hit_over_separator(a: Seq<char>, c: char, b: Seq<char>, pat: Seq<char>)
    requires
        pat.len() > 0,
        lacks(pat, c),
        !text::contains(a, pat),
        !text::contains(b, pat),
    ensures
        !text::contains(a + seq![c] + b, pat),
{
    let s = a + seq![c] + b;
    let n = a.len() as int;
    assert forall|i: int| !text::occurs_at(s, pat, i) by {
        if text::occurs_at(s, pat, i) {
            let hit = s.subrange(i, i + pat.len());
            if i + pat.len() <= n {
                assert(a.subrange(i, i + pat.len()) =~= hit);
                assert(text::occurs_at(a, pat, i));
            } else if i <= n {
                assert(hit[n - i] == s[n]);
                assert(pat[n - i] == c);
            } else {
                assert(b.subrange(i - n - 1, i - n - 1 + pat.len()) =~= hit);
                assert(text::occurs_at(b, pat, i - n - 1));
            }
        }
    }
}

/// Where a pattern has been replaced by a character that is not in it, the pattern is gone.
pub proof fn replaced_pattern_is_gone(s: Seq<char>, pat: Seq<char>, c: char)
    requires
        pat.len() > 0,
        lacks(pat, c),
    ensures
        !text::contains(text::replace(s, pat, seq![c]), pat),
    decreases s.len(),
{
    text::find_is_first(s, pat, 0);
    if let Some(i) = text::find(s, pat, 0) {
        let head = s.take(i);
        let rest = s.skip(i + pat.len());
        assert forall|j: int| !text::occurs_at(head, pat, j) by {
            if text::occurs_at(head, pat, j) {
                assert(head.subrange(j, j + pat.len()) =~= s.subrange(j, j + pat.len()));
                assert(text::occurs_at(s, pat, j));
            }
        }
        replaced_pattern_is_gone(rest, pat, c);
        no_hit_over_separator(head, c, text::replace(rest, pat, seq![c]), pat);
    }
}

/// The words of a text hold no pattern that the text does not hold.
pub proof fn words_hold_no_new_pattern(s: Seq<char>, pat: Seq<char>)
    requires
        !text::contains(s, pat),
    ensures
        forall|i: int|
            0 <= i < text::words(s).len() ==> !text::contains(#[trigger] text::words(s)[i], pat),
    decreases s.len(),
{
    if s.len() > 0 {
        let all = text::words(s);
        if text::is_white(s[0]) {
            parts_hold_no_new_pattern(s, 1, s.len() as int, pat);
            assert(s.subrange(1, s.len() as int) =~= s.drop_first());
            words_hold_no_new_pattern(s.drop_first(), pat);
            assert(all == text::words(s.drop_first()));
        } else {
            text::word_len_bounds(s.drop_first());
            let n = 1 + text::word_len(s.drop_first()) as int;
            parts_hold_no_new_pattern(s, 0, n, pat);
            parts_hold_no_new_pattern(s, n, s.len() as int, pat);
            assert(s.subrange(0, n) =~= s.take(n));
            assert(s.subrange(n, s.len() as int) =~= s.skip(n));
            words_hold_no_new_pattern(s.skip(n), pat);
            assert forall|i: int| 0 <= i < all.len() implies !text::contains(
                #[trigger] all[i],
                pat,
            ) by {
                if i == 0 {
                    assert(all[0] == s.take(n));
                } else {
                    assert(all[i] == text::words(s.skip(n))[i - 1]);
                }
            }
        }
    }
}

/// Joining brings in no pattern that lacks the separator.
pub proof fn join_brings_in_no_pattern(list: Seq<Seq<char>>, sep: char, pat: Seq<char>)
    requires
        pat.len() > 0,
        lacks(pat, sep),
        forall|i: int| 0 <= i < list.len() ==> !text::contains(#[trigger] list[i], pat),
    ensures
        !text::contains(text::join(list, sep), pat),
    decreases list.len(),
{
    if list.len() == 1 {
        assert(!text::contains(list[0], pat));
    } else if list.len() > 1 {
        let shorter = list.drop_last();
        assert forall|i: int| 0 <= i < shorter.len() implies !text::contains(
            #[trigger] shorter[i],
            pat,
        ) by {
            assert(shorter[i] == list[i]);
        }
        join_brings_in_no_pattern(shorter, sep, pat);
        assert(!text::contains(list[list.len() - 1], pat));
        no_hit_over_separator(text::join(shorter, sep), sep, list.last(), pat);
    }
}

// ---------------------------------------------------------------------------
// What the operations on texts give
// ---------------------------------------------------------------------------

/// A pattern stands where its characters stand, one after the other.
pub proof fn pattern_stands_character_by_character(s: Seq<char>, pat: Seq<char>, i: int)
    ensures
        text::occurs_at(s, pat, i) <==> {
            &&& 0 <= i
            &&& i + pat.len() <= s.len()
            &&& forall|k: int| 0 <= k < pat.len() ==> s[i + k] == #[trigger] pat[k]
        },
{
    if 0 <= i && i + pat.len() <= s.len() {
        let part = s.subrange(i, i + pat.len());
        if part == pat {
            assert forall|k: int| 0 <= k < pat.len() implies s[i + k] == #[trigger] pat[k] by {
                assert(part[k] == s[i + k]);
            }
        }
        if forall|k: int| 0 <= k < pat.len() ==> s[i + k] == #[trigger] pat[k] {
            assert(part =~= pat);
        }
    }
}

/// A text holds a pattern just when it is the pattern with something before and behind it.
pub proof fn held_patterns_are_parts(s: Seq<char>, pat: Seq<char>)
    ensures
        text::contains(s, pat) <==> exists|a: Seq<char>, b: Seq<char>| s == #[trigger] (a + pat + b),
{
    if text::contains(s, pat) {
        let i = choose|i: int| text::occurs_at(s, pat, i);
        let a = s.take(i);
        let b = s.skip(i + pat.len());
        let hit = s.subrange(i, i + pat.len());
        assert(s =~= a + hit + b);
        assert(s == a + pat + b);
    }
    if exists|a: Seq<char>, b: Seq<char>| s == #[trigger] (a + pat + b) {
        let (a, b) = choose|a: Seq<char>, b: Seq<char>| s == #[trigger] (a + pat + b);
        let n = a.len() as int;
        assert(s.subrange(n, n + pat.len()) =~= pat);
        assert(text::occurs_at(s, pat, n));
    }
}

/// Small letters: each ASCII capital letter becomes the letter with the code 32 higher, and every
/// other character stays.
pub proof fn lowering_changes_capital_letters_only(s: Seq<char>)
    ensures
        text::lower(s).len() == s.len(),
        forall|i: int|
            0 <= i < s.len() ==> (#[trigger] text::lower(s)[i]) as int == if 65 <= s[i] as int <= 90 {
                s[i] as int + 32
            } else {
                s[i] as int
            },
{
}

/// A borderless pattern that stands behind a text without it is replaced there, and what follows
/// it is treated likewise.
pub proof fn replaced_at_seam(a: Seq<char>, pat: Seq<char>, b: Seq<char>, to: Seq<char>)
    requires
        pat.len() > 0,
        borderless(pat),
        !text::contains(a, pat),
    ensures
        text::replace(a + pat + b, pat, to) == a + to + text::replace(b, pat, to),
{
    let s = a + pat + b;
    found_at_seam(a, pat, b);
    assert(s.take(a.len() as int) =~= a);
    assert(s.skip((a.len() + pat.len()) as int) =~= b);
}

/// A beginning in which no occurrence of the pattern begins stays as it is.
pub proof fn replaced_behind(a: Seq<char>, b: Seq<char>, pat: Seq<char>, to: Seq<char>)
    requires
        pat.len() > 0,
        forall|j: int| 0 <= j < a.len() ==> !text::occurs_at(a + b, pat, j),
    ensures
        text::replace(a + b, pat, to) == a + text::replace(b, pat, to),
{
    let s = a + b;
    let n = a.len() as int;
    find_behind(a, b, pat);
    text::find_is_first(s, pat, 0);
    text::find_is_first(s, pat, n);
    text::find_is_first(b, pat, 0);
    match text::find(b, pat, 0) {
        Some(i) => {
            text::find_is_unique(s, pat, 0, n + i);
            assert(s.take(n + i) =~= a + b.take(i));
            assert(s.skip(n + i + pat.len()) =~= b.skip(i + pat.len()));
            assert(text::replace(s, pat, to) =~= a + text::replace(b, pat, to));
        },
        None => {
            if let Some(j) = text::find(s, pat, 0) {
                assert(j >= n);
            }
        },
    }
}

/// Whether every character of `s` is white space.
pub open spec fn all_white(s: Seq<char>) -> bool {
    forall|i: int| 0 <= i < s.len() ==> text::is_white(#[trigger] s[i])
}

/// Whether `s` neither begins nor ends with white space.
pub open spec fn bare(s: Seq<char>) -> bool {
    s.len() > 0 ==> !text::is_white(s[0]) && !text::is_white(s[s.len() - 1])
}

/// White space in front of a text makes no difference to its words.
pub proof fn words_behind_white_space(front: Seq<char>, rest: Seq<char>)
    requires
        all_white(front),
    ensures
        text::words(front + rest) == text::words(rest),
    decreases front.len(),
{
    let s = front + rest;
    if front.len() == 0 {
        assert(s =~= rest);
    } else {
        let shorter = front.drop_first();
        assert forall|i: int| 0 <= i < shorter.len() implies text::is_white(
            #[trigger] shorter[i],
        ) by {
            assert(shorter[i] == front[i + 1]);
        }
        words_behind_white_space(shorter, rest);
        assert(s[0] == front[0]);
        assert(s.drop_first() =~= shorter + rest);
        assert(text::words(s) == text::words(s.drop_first()));
    }
}

/// A list of words, joined by spaces, has these words.
pub proof fn joined_words_read_back(list: Seq<Seq<char>>)
    requires
        forall|i: int| 0 <= i < list.len() ==> (#[trigger] list[i]).len() > 0 && no_white(list[i]),
    ensures
        text::words(text::join(list, ' ')) == list,
    decreases list.len(),
{
    let none = Seq::<char>::empty();
    if list.len() == 0 {
        assert(text::words(text::join(list, ' ')) =~= list);
    } else {
        let w = list[0];
        let rest = list.drop_first();
        assert forall|i: int| 0 <= i < rest.len() implies (#[trigger] rest[i]).len() > 0
            && no_white(rest[i]) by {
            assert(rest[i] == list[i + 1]);
        }
        joined_words_read_back(rest);
        assert(list =~= seq![w] + rest);
        if rest.len() == 0 {
            first_word_of(w, none);
            assert(w + none =~= w);
            assert(text::words(none) =~= Seq::<Seq<char>>::empty());
            assert(text::words(w) =~= list);
        } else {
            let tail = text::join(rest, ' ');
            join_from_left(w, rest, ' ');
            first_word_of(w, seq![' '] + tail);
            words_behind_white_space(seq![' '], tail);
            assert(w + seq![' '] + tail =~= w + (seq![' '] + tail));
        }
    }
}

/// Joining nothing gives nothing, and joining one piece gives that piece.
pub proof fn joining_few_pieces(piece: Seq<char>, sep: char)
    ensures
        text::join(Seq::<Seq<char>>::empty(), sep).len() == 0,
        text::join(seq![piece], sep) == piece,
{
}

/// Pieces without the separator, joined by it, are split into these pieces again.
pub proof fn joined_pieces_read_back(list: Seq<Seq<char>>, c: char)
    requires
        list.len() > 0,
        forall|i: int| 0 <= i < list.len() ==> lacks(#[trigger] list[i], c),
    ensures
        text::split(text::join(list, c), c) == list,
    decreases list.len(),
{
    if list.len() == 1 {
        assert(lacks(list[0], c));
        split_without_separator(list[0], c);
        assert(list =~= seq![list[0]]);
    } else {
        let shorter = list.drop_last();
        assert forall|i: int| 0 <= i < shorter.len() implies lacks(#[trigger] shorter[i], c) by {
            assert(shorter[i] == list[i]);
        }
        joined_pieces_read_back(shorter, c);
        assert(lacks(list[list.len() - 1], c));
        split_at_separator(text::join(shorter, c), list.last(), c);
        assert(list =~= shorter.push(list.last()));
    }
}

proof fn trim_start_of(a: Seq<char>, rest: Seq<char>)
    requires
        all_white(a),
        rest.len() > 0 ==> !text::is_white(rest[0]),
    ensures
        text::trim_start(a + rest) == rest,
    decreases a.len(),
{
    let s = a + rest;
    if a.len() == 0 {
        assert(s =~= rest);
    } else {
        let shorter = a.drop_first();
        assert forall|i: int| 0 <= i < shorter.len() implies text::is_white(
            #[trigger] shorter[i],
        ) by {
            assert(shorter[i] == a[i + 1]);
        }
        assert(s[0] == a[0]);
        assert(s.drop_first() =~= shorter + rest);
        trim_start_of(shorter, rest);
    }
}

proof fn trim_end_of(front: Seq<char>, b: Seq<char>)
    requires
        all_white(b),
        front.len() > 0 ==> !text::is_white(front[front.len() - 1]),
    ensures
        text::trim_end(front + b) == front,
    decreases b.len(),
{
    let s = front + b;
    if b.len() == 0 {
        assert(s =~= front);
    } else {
        let shorter = b.drop_last();
        assert forall|i: int| 0 <= i < shorter.len() implies text::is_white(
            #[trigger] shorter[i],
        ) by {
            assert(shorter[i] == b[i]);
        }
        assert(s.last() == b[b.len() - 1]);
        assert(s.drop_last() =~= front + shorter);
        trim_end_of(front, shorter);
    }
}

/// Trimming takes off the white space at both ends and nothing else.
pub proof fn trimming_takes_off_white_space(a: Seq<char>, core: Seq<char>, b: Seq<char>)
    requires
        all_white(a),
        all_white(b),
        bare(core),
    ensures
        text::trim(a + core + b) == core,
{
    let s = a + core + b;
    if core.len() == 0 {
        let none = Seq::<char>::empty();
        let ends = a + b;
        assert(s =~= ends + none);
        assert forall|i: int| 0 <= i < ends.len() implies text::is_white(#[trigger] ends[i]) by {
            if i < a.len() {
                assert(ends[i] == a[i]);
            } else {
                assert(ends[i] == b[i - a.len()]);
            }
        }
        trim_start_of(ends, none);
        assert(core =~= none);
    } else {
        assert(s =~= a + (core + b));
        assert((core + b)[0] == core[0]);
        trim_start_of(a, core + b);
        trim_end_of(core, b);
    }
}

/// Every text is what trimming leaves of it, with white space around it.
pub proof fn trimmed_off_parts(s: Seq<char>) -> (ends: (Seq<char>, Seq<char>))
    ensures
        all_white(ends.0),
        all_white(ends.1),
        bare(text::trim(s)),
        s == ends.0 + text::trim(s) + ends.1,
    decreases s.len(),
{
    let none = Seq::<char>::empty();
    if s.len() == 0 {
        assert(s =~= none + text::trim(s) + none);
        (none, none)
    } else if text::is_white(s[0]) {
        let (a, b) = trimmed_off_parts(s.drop_first());
        let front = seq![s[0]] + a;
        let core = text::trim(s.drop_first());
        assert(text::trim(s) == core);
        assert(s =~= seq![s[0]] + s.drop_first());
        assert(s =~= front + core + b);
        assert forall|i: int| 0 <= i < front.len() implies text::is_white(#[trigger] front[i]) by {
            if i > 0 {
                assert(front[i] == a[i - 1]);
            }
        }
        (front, b)
    } else if text::is_white(s.last()) {
        let (a, b) = trimmed_off_parts(s.drop_last());
        let back = b.push(s.last());
        let core = text::trim(s.drop_last());
        assert(s.drop_last()[0] == s[0]);
        assert(text::trim(s) == core);
        assert(s =~= s.drop_last().push(s.last()));
        assert(s =~= a + core + back);
        assert forall|i: int| 0 <= i < back.len() implies text::is_white(#[trigger] back[i]) by {
            if i < b.len() {
                assert(back[i] == b[i]);
            }
        }
        (a, back)
    } else {
        assert(s =~= none + s + none);
        (none, none)
    }
}

// ---------------------------------------------------------------------------
// Words in whatever case
// ---------------------------------------------------------------------------

/// Whether `c` is the character `small`, or the capital letter of the small letter `small`.
pub open spec fn is_case_of(c: char, small: char) -> bool {
    c == small || (65 <= c as int <= 90 && c as int + 32 == small as int)
}

/// Whether `word` is spelled out in `s` at position `i`, whatever the case of the letters.
pub open spec fn spelled_at(s: Seq<char>, word: Seq<char>, i: int) -> bool {
    &&& 0 <= i
    &&& i + word.len() <= s.len()
    &&& forall|k: int| 0 <= k < word.len() ==> is_case_of(s[i + k], #[trigger] word[k])
}

/// Whether `s` mentions `word`, whatever the case of the letters.
pub open spec fn mentions(s: Seq<char>, word: Seq<char>) -> bool {
    exists|i: int| spelled_at(s, word, i)
}

/// Whether `word` holds no capital letter, no white space, and neither the first nor the last
/// character of an encoded character.
pub open spec fn is_plain_word(word: Seq<char>) -> bool {
    &&& word.len() > 0
    &&& forall|k: int|
        0 <= k < word.len() ==> {
            let c = #[trigger] word[k];
            !(65 <= c as int <= 90) && !text::is_white(c) && c != '&' && c != ';'
        }
}

/// A text in small letters holds a word just when the text mentions it.
pub proof fn lowered_text_holds_mentioned_words(s: Seq<char>, word: Seq<char>)
    requires
        forall|k: int| 0 <= k < word.len() ==> !(65 <= (#[trigger] word[k]) as int <= 90),
    ensures
        text::contains(text::lower(s), word) <==> mentions(s, word),
{
    let low = text::lower(s);
    assert forall|i: int| text::occurs_at(low, word, i) <==> spelled_at(s, word, i) by {
        pattern_stands_character_by_character(low, word, i);
        if 0 <= i && i + word.len() <= s.len() {
            assert forall|k: int| 0 <= k < word.len() implies (low[i + k] == #[trigger] word[k]
                <==> is_case_of(s[i + k], word[k])) by {
                assert(low[i + k] == text::lower_char(s[i + k]));
            }
        }
    }
    if text::contains(low, word) {
        let i = choose|i: int| text::occurs_at(low, word, i);
        assert(spelled_at(s, word, i));
    }
    if mentions(s, word) {
        let i = choose|i: int| spelled_at(s, word, i);
        assert(text::occurs_at(low, word, i));
    }
}

/// The part of a text where a word is spelled out has the properties of the word.
pub proof fn mention_is_a_part(s: Seq<char>, word: Seq<char>, i: int)
    requires
        spelled_at(s, word, i),
        is_plain_word(word),
    ensures
        ({
            let v = s.subrange(i, i + word.len());
            &&& text::contains(s, v)
            &&& v.len() == word.len()
            &&& forall|k: int| 0 <= k < word.len() ==> is_case_of(v[k], #[trigger] word[k])
            &&& no_white(v)
            &&& lacks(v, '&')
            &&& lacks(v, ';')
            &&& lacks(v, ' ')
        }),
{
    let v = s.subrange(i, i + word.len());
    assert(text::occurs_at(s, v, i));
    assert forall|k: int| 0 <= k < v.len() implies is_case_of(#[trigger] v[k], word[k])
        && !text::is_white(v[k]) && v[k] != '&' && v[k] != ';' && v[k] != ' ' by {
        assert(v[k] == s[i + k]);
        assert(is_case_of(s[i + k], word[k]));
    }
    assert forall|k: int| 0 <= k < word.len() implies is_case_of(v[k], #[trigger] word[k]) by {
        assert(v[k] == s[i + k]);
    }
}

/// Where a part spells a word, every text that holds the part mentions the word.
pub proof fn part_mentions(s: Seq<char>, v: Seq<char>, word: Seq<char>)
    requires
        v.len() == word.len(),
        forall|k: int| 0 <= k < word.len() ==> is_case_of(v[k], #[trigger] word[k]),
        text::contains(s, v),
    ensures
        mentions(s, word),
{
    let i = choose|i: int| text::occurs_at(s, v, i);
    pattern_stands_character_by_character(s, v, i);
    assert forall|k: int| 0 <= k < word.len() implies is_case_of(s[i + k], #[trigger] word[k]) by {
        assert(s[i + k] == v[k]);
    }
    assert(spelled_at(s, word, i));
}

/// Replacing an encoded character keeps every pattern that has nothing in common with it.
pub proof fn replacing_keeps_other_patterns(s: Seq<char>, mid: Seq<char>, c: char, v: Seq<char>)
    requires
        v.len() > 0,
        lacks(v, '&'),
        lacks(v, ';'),
        lacks(v, c),
        !text::contains(mid, v),
    ensures
        text::contains(
            text::replace(s, seq!['&'] + mid + seq![';'], seq![c]),
            v,
        ) == text::contains(s, v),
    decreases s.len(),
{
    let pat = seq!['&'] + mid + seq![';'];
    text::find_is_first(s, pat, 0);
    if let Some(i) = text::find(s, pat, 0) {
        let head = s.take(i);
        let rest = s.skip(i + pat.len());
        let done = text::replace(rest, pat, seq![c]);
        let all = text::replace(s, pat, seq![c]);
        replacing_keeps_other_patterns(rest, mid, c, v);
        assert(all == head + seq![c] + done);
        if text::contains(s, v) {
            if !text::contains(all, v) {
                let n = head.len() as int;
                let e = all.len() as int;
                parts_hold_no_new_pattern(all, 0, n, v);
                parts_hold_no_new_pattern(all, n + 1, e, v);
                assert(all.subrange(0, n) =~= head);
                assert(all.subrange(n + 1, e) =~= done);
                no_hit_over_separator(head, '&', mid, v);
                no_hit_over_separator(head + seq!['&'] + mid, ';', rest, v);
                assert(s.subrange(i, i + pat.len()) =~= pat);
                assert(s =~= head + pat + rest);
                assert(s =~= head + seq!['&'] + mid + seq![';'] + rest);
            }
        } else {
            parts_hold_no_new_pattern(s, 0, i, v);
            parts_hold_no_new_pattern(s, i + pat.len(), s.len() as int, v);
            assert(s.subrange(0, i) =~= head);
            assert(s.subrange(i + pat.len(), s.len() as int) =~= rest);
            no_hit_over_separator(head, c, done, v);
        }
    }
}

/// A pattern that no word of a text holds, and that holds no white space, is not in the text.
proof fn words_hold_all_patterns(s: Seq<char>, v: Seq<char>)
    requires
        v.len() > 0,
        no_white(v),
        forall|i: int|
            0 <= i < text::words(s).len() ==> !text::contains(#[trigger] text::words(s)[i], v),
    ensures
        !text::contains(s, v),
    decreases s.len(),
{
    let none = Seq::<char>::empty();
    assert forall|i: int| !text::occurs_at(none, v, i) by {}
    if s.len() == 0 {
        assert(s =~= none);
    } else if text::is_white(s[0]) {
        let rest = s.drop_first();
        assert(text::words(s) == text::words(rest));
        words_hold_all_patterns(rest, v);
        white_is_lacking(v, s[0]);
        no_hit_over_separator(none, s[0], rest, v);
        assert(s =~= none + seq![s[0]] + rest);
    } else {
        text::word_len_bounds(s.drop_first());
        text::word_len_bounds(s);
        let n = text::word_len(s) as int;
        let w = s.take(n);
        let rest = s.skip(n);
        let all = text::words(s);
        assert(all == seq![w] + text::words(rest));
        assert(all[0] == w);
        assert forall|i: int| 0 <= i < text::words(rest).len() implies !text::contains(
            #[trigger] text::words(rest)[i],
            v,
        ) by {
            assert(all[i + 1] == text::words(rest)[i]);
        }
        if rest.len() == 0 {
            assert(s =~= w);
        } else {
            words_hold_all_patterns(rest, v);
            let c = rest[0];
            assert(c == s[n]);
            white_is_lacking(v, c);
            let tail = rest.drop_first();
            parts_hold_no_new_pattern(rest, 1, rest.len() as int, v);
            assert(rest.subrange(1, rest.len() as int) =~= tail);
            no_hit_over_separator(w, c, tail, v);
            assert(s =~= w + seq![c] + tail);
        }
    }
}

/// A text without white space lacks every white character.
pub proof fn white_is_lacking(v: Seq<char>, c: char)
    requires
        no_white(v),
        text::is_white(c),
    ensures
        lacks(v, c),
{
    assert forall|i: int| 0 <= i < v.len() implies #[trigger] v[i] != c by {
        assert(!text::is_white(v[i]));
    }
}

/// What pieces hold, their joined text holds.
proof fn join_holds_its_pieces(list: Seq<Seq<char>>, sep: char, v: Seq<char>)
    requires
        !text::contains(text::join(list, sep), v),
    ensures
        forall|i: int| 0 <= i < list.len() ==> !text::contains(#[trigger] list[i], v),
    decreases list.len(),
{
    if list.len() > 1 {
        let all = text::join(list, sep);
        let shorter = list.drop_last();
        let head = text::join(shorter, sep);
        let n = head.len() as int;
        let e = all.len() as int;
        parts_hold_no_new_pattern(all, 0, n, v);
        parts_hold_no_new_pattern(all, n + 1, e, v);
        assert(all.subrange(0, n) =~= head);
        assert(all.subrange(n + 1, e) =~= list.last());
        join_holds_its_pieces(shorter, sep, v);
        assert forall|i: int| 0 <= i < list.len() implies !text::contains(#[trigger] list[i], v) by {
            if i < shorter.len() {
                assert(list[i] == shorter[i]);
            }
        }
    }
}

/// Collapsing white space keeps every pattern without white space.
pub proof fn collapsing_keeps_patterns(s: Seq<char>, v: Seq<char>)
    requires
        v.len() > 0,
        no_white(v),
    ensures
        text::contains(text::join(text::words(s), ' '), v) == text::contains(s, v),
{
    white_is_lacking(v, ' ');
    if text::contains(s, v) {
        if !text::contains(text::join(text::words(s), ' '), v) {
            join_holds_its_pieces(text::words(s), ' ', v);
            words_hold_all_patterns(s, v);
        }
    } else {
        words_hold_no_new_pattern(s, v);
        join_brings_in_no_pattern(text::words(s), ' ', v);
    }
}

} // verus!
