//! Laws of cleaning text and of scanning HTML.

use vstd::prelude::*;
use crate::html;
use crate::laws::text as seams;
use crate::text;

verus! {

// ---------------------------------------------------------------------------
// Cleaning
// ---------------------------------------------------------------------------

/// Cleaning collapses white space: what is left of it are single spaces between other characters.
pub proof fn cleaned_text_is_tidy(s: Seq<char>)
    ensures
        seams::tidy(html::cleaned(s)),
{
    seams::words_are_words(html::decoded(s));
    seams::joined_words_are_tidy(text::words(html::decoded(s)));
}

/// Cleaning changes nothing in a tidy text without encoded characters.
pub proof fn cleaning_keeps_clean_text(s: Seq<char>)
    requires
        seams::tidy(s),
        !text::contains(s, "&amp;"@),
        !text::contains(s, "&nbsp;"@),
    ensures
        html::cleaned(s) == s,
{
    seams::nothing_to_replace(s, "&amp;"@, "&"@);
    seams::nothing_to_replace(s, "&nbsp;"@, " "@);
    seams::tidy_text_stays(s);
}

/// Cleaned text holds no `&nbsp;`.
pub proof fn cleaned_text_has_no_encoded_space(s: Seq<char>)
    ensures
        !text::contains(html::cleaned(s), "&nbsp;"@),
{
    reveal_strlit("&nbsp;");
    reveal_strlit(" ");
    assert(" "@ =~= seq![' ']);
    seams::replaced_pattern_is_gone(text::replace(s, "&amp;"@, "&"@), "&nbsp;"@, ' ');
    seams::words_hold_no_new_pattern(html::decoded(s), "&nbsp;"@);
    seams::join_brings_in_no_pattern(text::words(html::decoded(s)), ' ', "&nbsp;"@);
}

/// Cleaning a second time changes nothing, unless decoding has left an `&amp;` to decode.
pub proof fn cleaning_twice(s: Seq<char>)
    requires
        !text::contains(html::cleaned(s), "&amp;"@),
    ensures
        html::cleaned(html::cleaned(s)) == html::cleaned(s),
{
    cleaned_text_is_tidy(s);
    cleaned_text_has_no_encoded_space(s);
    cleaning_keeps_clean_text(html::cleaned(s));
}

/// Cleaning brings in no character but spaces and ampersands.
pub proof fn cleaning_keeps_lacking(s: Seq<char>, c: char)
    requires
        seams::lacks(s, c),
        c != ' ',
        c != '&',
    ensures
        seams::lacks(html::cleaned(s), c),
{
    reveal_strlit("&");
    reveal_strlit(" ");
    let first = text::replace(s, "&amp;"@, "&"@);
    seams::replace_keeps_lacking(s, "&amp;"@, "&"@, c);
    seams::replace_keeps_lacking(first, "&nbsp;"@, " "@, c);
    seams::words_keep_lacking(html::decoded(s), c);
    seams::join_keeps_lacking(text::words(html::decoded(s)), ' ', c);
}

/// Encoded characters are decoded from the left. Up to the first ampersand a text stays as it is.
pub proof fn text_without_ampersand_is_not_decoded(s: Seq<char>)
    requires
        seams::lacks(s, '&'),
    ensures
        html::decoded(s) == s,
{
    encodings();
    seams::lacking_text_lacks_pattern(s, "&amp;"@, 0);
    seams::lacking_text_lacks_pattern(s, "&nbsp;"@, 0);
    seams::nothing_to_replace(s, "&amp;"@, "&"@);
    seams::nothing_to_replace(s, "&nbsp;"@, " "@);
}

/// `&nbsp;` is decoded as a space.
pub proof fn encoded_space_is_decoded(a: Seq<char>, b: Seq<char>)
    requires
        seams::lacks(a, '&'),
    ensures
        html::decoded(a + "&nbsp;"@ + b) == a + seq![' '] + html::decoded(b),
{
    encodings();
    let front = a + "&nbsp;"@;
    assert forall|j: int| 0 <= j < front.len() implies !text::occurs_at(
        front + b,
        "&amp;"@,
        j,
    ) by {
        seams::pattern_stands_character_by_character(front + b, "&amp;"@, j);
        assert("&amp;"@[0] == '&' && "&amp;"@[1] == 'a');
        if j < a.len() {
            assert((front + b)[j + 0] == a[j]);
        } else {
            assert((front + b)[j + 0] == "&nbsp;"@[j - a.len()]);
            if j == a.len() {
                assert((front + b)[j + 1] == "&nbsp;"@[1]);
            }
        }
    }
    seams::replaced_behind(front, b, "&amp;"@, "&"@);
    seams::lacking_text_lacks_pattern(a, "&nbsp;"@, 0);
    seams::replaced_at_seam(a, "&nbsp;"@, text::replace(b, "&amp;"@, "&"@), " "@);
}

/// `&amp;` is decoded as an ampersand, unless it is one of `&amp;nbsp;`.
pub proof fn encoded_ampersand_is_decoded(a: Seq<char>, b: Seq<char>)
    requires
        seams::lacks(a, '&'),
        !text::occurs_at(b, "nbsp;"@, 0),
    ensures
        html::decoded(a + "&amp;"@ + b) == a + seq!['&'] + html::decoded(b),
{
    encodings();
    seams::lacking_text_lacks_pattern(a, "&amp;"@, 0);
    seams::replaced_at_seam(a, "&amp;"@, b, "&"@);
    let rest = text::replace(b, "&amp;"@, "&"@);
    beginning_is_kept(b);
    ampersand_stays(a, rest);
}

/// `&amp;nbsp;` is decoded as a space.
pub proof fn twice_encoded_space_is_decoded(a: Seq<char>, b: Seq<char>)
    requires
        seams::lacks(a, '&'),
    ensures
        html::decoded(a + "&amp;nbsp;"@ + b) == a + seq![' '] + html::decoded(b),
{
    encodings();
    reveal_strlit("&amp;nbsp;");
    let rest = text::replace(b, "&amp;"@, "&"@);
    assert("&amp;nbsp;"@ =~= "&amp;"@ + "nbsp;"@);
    assert(a + "&amp;nbsp;"@ + b =~= a + "&amp;"@ + ("nbsp;"@ + b));
    seams::lacking_text_lacks_pattern(a, "&amp;"@, 0);
    seams::replaced_at_seam(a, "&amp;"@, "nbsp;"@ + b, "&"@);
    assert forall|j: int| 0 <= j < "nbsp;"@.len() implies !text::occurs_at(
        "nbsp;"@ + b,
        "&amp;"@,
        j,
    ) by {
        seams::pattern_stands_character_by_character("nbsp;"@ + b, "&amp;"@, j);
        assert("&amp;"@[0] == '&');
        assert(("nbsp;"@ + b)[j + 0] == "nbsp;"@[j]);
    }
    seams::replaced_behind("nbsp;"@, b, "&amp;"@, "&"@);
    assert("&nbsp;"@ =~= "&"@ + "nbsp;"@);
    assert(a + "&"@ + ("nbsp;"@ + rest) =~= a + "&nbsp;"@ + rest);
    seams::lacking_text_lacks_pattern(a, "&nbsp;"@, 0);
    seams::replaced_at_seam(a, "&nbsp;"@, rest, " "@);
}

/// An ampersand that begins neither `&amp;` nor `&nbsp;` stays.
pub proof fn other_ampersands_stay(a: Seq<char>, b: Seq<char>)
    requires
        seams::lacks(a, '&'),
        !text::occurs_at(b, "amp;"@, 0),
        !text::occurs_at(b, "nbsp;"@, 0),
    ensures
        html::decoded(a + seq!['&'] + b) == a + seq!['&'] + html::decoded(b),
{
    encodings();
    reveal_strlit("amp;");
    let front = a + seq!['&'];
    assert forall|j: int| 0 <= j < front.len() implies !text::occurs_at(
        front + b,
        "&amp;"@,
        j,
    ) by {
        seams::pattern_stands_character_by_character(front + b, "&amp;"@, j);
        assert("&amp;"@[0] == '&');
        if j < a.len() {
            assert((front + b)[j + 0] == a[j]);
        } else if text::occurs_at(front + b, "&amp;"@, j) {
            assert((front + b).subrange(j, j + 5).subrange(1, 5) =~= b.subrange(0, 4));
            assert("&amp;"@.subrange(1, 5) =~= "amp;"@);
        }
    }
    seams::replaced_behind(front, b, "&amp;"@, "&"@);
    beginning_is_kept(b);
    ampersand_stays(a, text::replace(b, "&amp;"@, "&"@));
}

proof fn encodings()
    ensures
        "&amp;"@.len() == 5,
        "&nbsp;"@.len() == 6,
        "nbsp;"@.len() == 5,
        "&amp;"@ == seq!['&', 'a', 'm', 'p', ';'],
        "&nbsp;"@ == seq!['&', 'n', 'b', 's', 'p', ';'],
        "nbsp;"@ == seq!['n', 'b', 's', 'p', ';'],
        "&"@ == seq!['&'],
        " "@ == seq![' '],
        seams::borderless("&amp;"@),
        seams::borderless("&nbsp;"@),
{
    reveal_strlit("&amp;");
    reveal_strlit("&nbsp;");
    reveal_strlit("nbsp;");
    reveal_strlit("&");
    reveal_strlit(" ");
    assert("&amp;"@ =~= seq!['&', 'a', 'm', 'p', ';']);
    assert("&nbsp;"@ =~= seq!['&', 'n', 'b', 's', 'p', ';']);
    assert("nbsp;"@ =~= seq!['n', 'b', 's', 'p', ';']);
    assert("&"@ =~= seq!['&']);
    assert(" "@ =~= seq![' ']);
    seams::unique_head_is_borderless("&amp;"@);
    seams::unique_head_is_borderless("&nbsp;"@);
}

/// Decoding ampersands does not make `nbsp;` stand at the beginning of a text.
proof fn beginning_is_kept(b: Seq<char>)
    ensures
        text::occurs_at(text::replace(b, "&amp;"@, "&"@), "nbsp;"@, 0) ==> text::occurs_at(
            b,
            "nbsp;"@,
            0,
        ),
{
    encodings();
    let r = text::replace(b, "&amp;"@, "&"@);
    text::find_is_first(b, "&amp;"@, 0);
    if let Some(i) = text::find(b, "&amp;"@, 0) {
        if text::occurs_at(r, "nbsp;"@, 0) {
            if i < 5 {
                assert(r.subrange(0, 5)[i] == r[i]);
                assert(r[i] == '&');
            } else {
                assert(r.subrange(0, 5) =~= b.subrange(0, 5));
            }
        }
    }
}

/// An ampersand before a text that does not begin with `nbsp;` is no encoded space.
proof fn ampersand_stays(a: Seq<char>, rest: Seq<char>)
    requires
        seams::lacks(a, '&'),
        !text::occurs_at(rest, "nbsp;"@, 0),
    ensures
        text::replace(a + seq!['&'] + rest, "&nbsp;"@, " "@) == a + seq!['&'] + text::replace(
            rest,
            "&nbsp;"@,
            " "@,
        ),
{
    encodings();
    let front = a + seq!['&'];
    assert forall|j: int| 0 <= j < front.len() implies !text::occurs_at(
        front + rest,
        "&nbsp;"@,
        j,
    ) by {
        seams::pattern_stands_character_by_character(front + rest, "&nbsp;"@, j);
        assert("&nbsp;"@[0] == '&');
        if j < a.len() {
            assert((front + rest)[j + 0] == a[j]);
        } else if text::occurs_at(front + rest, "&nbsp;"@, j) {
            assert((front + rest).subrange(j, j + 6).subrange(1, 6) =~= rest.subrange(0, 5));
            assert("&nbsp;"@.subrange(1, 6) =~= "nbsp;"@);
        }
    }
    seams::replaced_behind(front, rest, "&nbsp;"@, " "@);
}

/// Cleaning keeps the words of the decoded text, all of them and in order.
pub proof fn cleaning_keeps_words(s: Seq<char>)
    ensures
        text::words(html::cleaned(s)) == text::words(html::decoded(s)),
{
    seams::words_are_words(html::decoded(s));
    seams::joined_words_read_back(text::words(html::decoded(s)));
}

/// Decoding an ampersand and a space and collapsing white space keeps every pattern that has
/// nothing in common with what is replaced.
proof fn cleaning_keeps_patterns(s: Seq<char>, v: Seq<char>)
    requires
        v.len() > 0,
        seams::no_white(v),
        seams::lacks(v, '&'),
        seams::lacks(v, ';'),
        !text::contains(seq!['a', 'm', 'p'], v),
        !text::contains(seq!['n', 'b', 's', 'p'], v),
    ensures
        text::contains(html::cleaned(s), v) == text::contains(s, v),
{
    reveal_strlit("&amp;");
    reveal_strlit("&nbsp;");
    reveal_strlit("&");
    reveal_strlit(" ");
    seams::white_is_lacking(v, ' ');
    assert("&amp;"@ =~= seq!['&'] + seq!['a', 'm', 'p'] + seq![';']);
    assert("&nbsp;"@ =~= seq!['&'] + seq!['n', 'b', 's', 'p'] + seq![';']);
    assert("&"@ =~= seq!['&']);
    assert(" "@ =~= seq![' ']);
    let first = text::replace(s, "&amp;"@, "&"@);
    seams::replacing_keeps_other_patterns(s, seq!['a', 'm', 'p'], '&', v);
    seams::replacing_keeps_other_patterns(first, seq!['n', 'b', 's', 'p'], ' ', v);
    seams::collapsing_keeps_patterns(html::decoded(s), v);
}

/// A word of at least four letters that is not `nbsp` is mentioned in a cleaned text just when it
/// is mentioned in the text.
pub proof fn cleaning_keeps_mentions(s: Seq<char>, word: Seq<char>)
    requires
        seams::is_plain_word(word),
        word.len() >= 4,
        word.len() == 4 ==> word[0] != 'n',
    ensures
        seams::mentions(html::cleaned(s), word) <==> seams::mentions(s, word),
{
    let c = html::cleaned(s);
    if seams::mentions(s, word) {
        let i = choose|i: int| seams::spelled_at(s, word, i);
        seams::mention_is_a_part(s, word, i);
        let v = s.subrange(i, i + word.len());
        no_part_of_encodings(v, word);
        cleaning_keeps_patterns(s, v);
        seams::part_mentions(c, v, word);
    }
    if seams::mentions(c, word) {
        let i = choose|i: int| seams::spelled_at(c, word, i);
        seams::mention_is_a_part(c, word, i);
        let v = c.subrange(i, i + word.len());
        no_part_of_encodings(v, word);
        cleaning_keeps_patterns(s, v);
        seams::part_mentions(s, v, word);
    }
}

proof fn no_part_of_encodings(v: Seq<char>, word: Seq<char>)
    requires
        v.len() == word.len() >= 4,
        forall|k: int| 0 <= k < word.len() ==> seams::is_case_of(v[k], #[trigger] word[k]),
        word.len() == 4 ==> word[0] != 'n',
    ensures
        !text::contains(seq!['a', 'm', 'p'], v),
        !text::contains(seq!['n', 'b', 's', 'p'], v),
{
    let nbsp = seq!['n', 'b', 's', 'p'];
    assert forall|i: int| !text::occurs_at(nbsp, v, i) by {
        if text::occurs_at(nbsp, v, i) {
            assert(nbsp.subrange(i, i + v.len())[0] == nbsp[i]);
            assert(seams::is_case_of(v[0], word[0]));
        }
    }
}

proof fn untagged_has_no_tags(s: Seq<char>, in_tag: bool)
    ensures
        seams::lacks(html::untagged(s, in_tag), '<'),
        seams::lacks(html::untagged(s, in_tag), '>'),
    decreases s.len(),
{
    if s.len() > 0 {
        untagged_has_no_tags(s.drop_first(), true);
        untagged_has_no_tags(s.drop_first(), false);
    }
}

/// What is left after stripping tags holds no angle bracket.
pub proof fn stripped_text_has_no_tags(s: Seq<char>)
    ensures
        seams::lacks(html::stripped(s), '<'),
        seams::lacks(html::stripped(s), '>'),
{
    untagged_has_no_tags(s, false);
    cleaning_keeps_lacking(html::untagged(s, false), '<');
    cleaning_keeps_lacking(html::untagged(s, false), '>');
}

/// Text without angle brackets is all kept.
pub proof fn text_without_tags_is_kept(s: Seq<char>)
    requires
        seams::lacks(s, '<'),
        seams::lacks(s, '>'),
    ensures
        html::untagged(s, false) == s,
        html::stripped(s) == html::cleaned(s),
    decreases s.len(),
{
    if s.len() == 0 {
        assert(html::untagged(s, false) =~= s);
    } else {
        let rest = s.drop_first();
        assert forall|i: int| 0 <= i < rest.len() implies #[trigger] rest[i] != '<' && rest[i]
            != '>' by {
            assert(rest[i] == s[i + 1]);
        }
        text_without_tags_is_kept(rest);
        assert(s[0] != '<' && s[0] != '>');
        assert(html::untagged(s, false) =~= s);
    }
}

/// A tag in front of a text is taken out, whatever stands in it.
pub proof fn tag_is_taken_out(tag: Seq<char>, s: Seq<char>)
    requires
        seams::lacks(tag, '>'),
    ensures
        html::untagged(seq!['<'] + tag + seq!['>'] + s, false) == html::untagged(s, false),
{
    let all = seq!['<'] + tag + seq!['>'] + s;
    assert(all.drop_first() =~= tag + seq!['>'] + s);
    inside_a_tag(tag, s);
}

proof fn inside_a_tag(tag: Seq<char>, s: Seq<char>)
    requires
        seams::lacks(tag, '>'),
    ensures
        html::untagged(tag + seq!['>'] + s, true) == html::untagged(s, false),
    decreases tag.len(),
{
    let all = tag + seq!['>'] + s;
    if tag.len() == 0 {
        assert(all.drop_first() =~= s);
    } else {
        let rest = tag.drop_first();
        assert forall|i: int| 0 <= i < rest.len() implies #[trigger] rest[i] != '>' by {
            assert(rest[i] == tag[i + 1]);
        }
        assert(all[0] == tag[0]);
        assert(tag[0] != '>');
        assert(all.drop_first() =~= rest + seq!['>'] + s);
        inside_a_tag(rest, s);
    }
}

proof fn untagged_behind_text(a: Seq<char>, s: Seq<char>)
    requires
        seams::lacks(a, '<'),
        seams::lacks(a, '>'),
    ensures
        html::untagged(a + s, false) == a + html::untagged(s, false),
    decreases a.len(),
{
    let all = a + s;
    if a.len() == 0 {
        assert(all =~= s);
        assert(html::untagged(all, false) =~= a + html::untagged(s, false));
    } else {
        let rest = a.drop_first();
        assert forall|i: int| 0 <= i < rest.len() implies #[trigger] rest[i] != '<' && rest[i]
            != '>' by {
            assert(rest[i] == a[i + 1]);
        }
        assert(all[0] == a[0]);
        assert(a[0] != '<' && a[0] != '>');
        assert(all.drop_first() =~= rest + s);
        untagged_behind_text(rest, s);
        assert(html::untagged(all, false) =~= a + html::untagged(s, false));
    }
}

proof fn unclosed_tag_leaves_nothing(tag: Seq<char>)
    requires
        seams::lacks(tag, '>'),
    ensures
        html::untagged(tag, true).len() == 0,
    decreases tag.len(),
{
    if tag.len() > 0 {
        let rest = tag.drop_first();
        assert forall|i: int| 0 <= i < rest.len() implies #[trigger] rest[i] != '>' by {
            assert(rest[i] == tag[i + 1]);
        }
        assert(tag[0] != '>');
        unclosed_tag_leaves_nothing(rest);
    }
}

/// A tag makes no difference to what is left of a text, wherever it stands.
pub proof fn tags_make_no_difference(a: Seq<char>, tag: Seq<char>, s: Seq<char>)
    requires
        seams::lacks(a, '<'),
        seams::lacks(a, '>'),
        seams::lacks(tag, '>'),
    ensures
        html::stripped(a + (seq!['<'] + tag + seq!['>'] + s)) == html::stripped(a + s),
{
    tag_is_taken_out(tag, s);
    untagged_behind_text(a, seq!['<'] + tag + seq!['>'] + s);
    untagged_behind_text(a, s);
}

/// A tag that is not closed takes the rest of the text with it.
pub proof fn unclosed_tags_reach_to_the_end(a: Seq<char>, tag: Seq<char>)
    requires
        seams::lacks(a, '<'),
        seams::lacks(a, '>'),
        seams::lacks(tag, '>'),
    ensures
        html::stripped(a + (seq!['<'] + tag)) == html::cleaned(a),
{
    let s = seq!['<'] + tag;
    untagged_behind_text(a, s);
    unclosed_tag_leaves_nothing(tag);
    assert(s.drop_first() =~= tag);
    assert(html::untagged(a + s, false) =~= a);
}

/// A closing angle bracket outside a tag is left out.
pub proof fn stray_brackets_are_left_out(a: Seq<char>, s: Seq<char>)
    requires
        seams::lacks(a, '<'),
        seams::lacks(a, '>'),
    ensures
        html::stripped(a + (seq!['>'] + s)) == html::stripped(a + s),
{
    let all = seq!['>'] + s;
    untagged_behind_text(a, all);
    untagged_behind_text(a, s);
    assert(all.drop_first() =~= s);
}

// ---------------------------------------------------------------------------
// Rows and cells
// ---------------------------------------------------------------------------

/// The rows of a table do not depend on the case of the tags: of two documents that differ only
/// in the case of letters, the rows differ only in the case of letters.
pub proof fn rows_ignore_case(a: Seq<char>, b: Seq<char>, from: int)
    requires
        text::lower(a) == text::lower(b),
        0 <= from <= a.len(),
    ensures
        html::row_bodies(a, from).len() == html::row_bodies(b, from).len(),
        forall|i: int|
            0 <= i < html::row_bodies(a, from).len() ==> text::lower(
                #[trigger] html::row_bodies(a, from)[i],
            ) == text::lower(html::row_bodies(b, from)[i]),
    decreases a.len() - from,
{
    reveal_strlit("</tr>");
    let low = text::lower(a);
    assert(a.len() == low.len());
    assert(b.len() == text::lower(b).len());
    html::next_element_bounds(low, "<tr"@, "</tr>"@, from);
    if let Some(e) = html::next_element(low, "<tr"@, "</tr>"@, from) {
        rows_ignore_case(a, b, e.end + 5);
        let x = a.subrange(e.body, e.end);
        let y = b.subrange(e.body, e.end);
        assert(text::lower(x) =~= low.subrange(e.body, e.end));
        assert(text::lower(y) =~= text::lower(b).subrange(e.body, e.end));
        let rest_a = html::row_bodies(a, e.end + 5);
        let rest_b = html::row_bodies(b, e.end + 5);
        let all = html::row_bodies(a, from);
        assert(all == seq![x] + rest_a);
        assert(html::row_bodies(b, from) == seq![y] + rest_b);
        assert forall|i: int| 0 <= i < all.len() implies text::lower(#[trigger] all[i])
            == text::lower(html::row_bodies(b, from)[i]) by {
            if i > 0 {
                assert(all[i] == rest_a[i - 1]);
                assert(html::row_bodies(b, from)[i] == rest_b[i - 1]);
            }
        }
    }
}

/// The number of cells of a row does not depend on the case of the tags.
pub proof fn cells_ignore_case(a: Seq<char>, b: Seq<char>, from: int)
    requires
        text::lower(a) == text::lower(b),
        0 <= from <= a.len(),
    ensures
        html::cell_texts(a, from).len() == html::cell_texts(b, from).len(),
    decreases a.len() - from,
{
    let low = text::lower(a);
    assert(a.len() == low.len());
    assert(b.len() == text::lower(b).len());
    html::next_cell_bounds(low, from);
    if let Some(e) = html::next_cell(low, from) {
        cells_ignore_case(a, b, e.end + 5);
    }
}

/// A row ends at its first closing tag: its body holds none.
pub proof fn row_bodies_hold_no_closing_tag(s: Seq<char>, from: int)
    requires
        0 <= from <= s.len(),
    ensures
        forall|i: int|
            0 <= i < html::row_bodies(s, from).len() ==> !text::contains(
                text::lower(#[trigger] html::row_bodies(s, from)[i]),
                "</tr>"@,
            ),
    decreases s.len() - from,
{
    reveal_strlit("</tr>");
    let low = text::lower(s);
    assert(s.len() == low.len());
    html::next_element_bounds(low, "<tr"@, "</tr>"@, from);
    if let Some(e) = html::next_element(low, "<tr"@, "</tr>"@, from) {
        row_bodies_hold_no_closing_tag(s, e.end + 5);
        text::find_is_first(low, "</tr>"@, e.body);
        let x = s.subrange(e.body, e.end);
        assert forall|j: int| !text::occurs_at(text::lower(x), "</tr>"@, j) by {
            if text::occurs_at(text::lower(x), "</tr>"@, j) {
                assert(text::lower(x).subrange(j, j + 5) =~= low.subrange(
                    e.body + j,
                    e.body + j + 5,
                ));
                assert(text::occurs_at(low, "</tr>"@, e.body + j));
            }
        }
        let all = html::row_bodies(s, from);
        let rest = html::row_bodies(s, e.end + 5);
        assert(all == seq![x] + rest);
        assert forall|i: int| 0 <= i < all.len() implies !text::contains(
            text::lower(#[trigger] all[i]),
            "</tr>"@,
        ) by {
            if i > 0 {
                assert(all[i] == rest[i - 1]);
            }
        }
    }
}

/// An element as it stands in a document: the text before it, the beginning of its opening tag,
/// what stands in that tag behind its name, what it encloses, and its closing tag.
pub struct Written {
    pub gap: Seq<char>,
    pub open: Seq<char>,
    pub attrs: Seq<char>,
    pub body: Seq<char>,
    pub close: Seq<char>,
}

impl Written {
    /// The element and the text before it.
    pub open spec fn text(self) -> Seq<char> {
        self.gap + self.open + self.attrs + seq!['>'] + self.body + self.close
    }

    /// Whether this is an element with these tags, in whatever case, that ends at its first
    /// closing tag.
    pub open spec fn has_tags(self, open: Seq<char>, close: Seq<char>) -> bool {
        &&& text::lower(self.open) == open
        &&& text::lower(self.close) == close
        &&& seams::lacks(self.attrs, '>')
        &&& !text::contains(text::lower(self.body), close)
    }

    /// Whether this is a table row behind a text without one.
    pub open spec fn is_row(self) -> bool {
        &&& self.has_tags("<tr"@, "</tr>"@)
        &&& !text::contains(text::lower(self.gap), "<tr"@)
    }

    /// Whether no further letter belongs to the name of the element.
    pub open spec fn name_is_complete(self) -> bool {
        self.attrs.len() > 0 ==> !html::is_letter(self.attrs[0])
    }

    /// Whether this is a table cell, for data or in a header, behind a text without one.
    pub open spec fn is_cell(self) -> bool {
        &&& self.has_tags("<td"@, "</td>"@) || (self.has_tags("<th"@, "</th>"@)
            && self.name_is_complete())
        &&& no_cell_opens(self.gap)
    }
}

/// Whether no cell opens in `s`.
pub open spec fn no_cell_opens(s: Seq<char>) -> bool {
    &&& !text::contains(text::lower(s), "<td"@)
    &&& forall|i: int| !html::opens_at(text::lower(s), "<th"@, i)
}

/// Whether no row stands in `s`: none opens, or none is closed.
pub open spec fn no_row_stands(s: Seq<char>) -> bool {
    !text::contains(text::lower(s), "<tr"@) || !text::contains(text::lower(s), "</tr>"@)
}

/// Whether no cell stands in `s`: none opens, or none is closed.
pub open spec fn no_cell_stands(s: Seq<char>) -> bool {
    ||| no_cell_opens(s)
    ||| (!text::contains(text::lower(s), "</td>"@) && !text::contains(text::lower(s), "</th>"@))
}

/// Behind `pre`, no element is found whose closing tag does not come.
proof fn unclosed_element(pre: Seq<char>, tail: Seq<char>, at: Option<int>, close: Seq<char>)
    requires
        at matches Some(i) ==> pre.len() <= i,
        !text::contains(tail, close),
    ensures
        html::element_at(pre + tail, at, close) is None,
{
    reveal_strlit(">");
    let s = pre + tail;
    let n = pre.len() as int;
    if let Some(i) = at {
        text::find_is_first(s, ">"@, i);
        if let Some(gt) = text::find(s, ">"@, i) {
            text::find_is_first(s, close, gt + 1);
            if let Some(e) = text::find(s, close, gt + 1) {
                assert(s.subrange(e, e + close.len()) =~= tail.subrange(
                    e - n,
                    e - n + close.len(),
                ));
                assert(text::occurs_at(tail, close, e - n));
            }
        }
    }
}

/// These elements, one after the other.
pub open spec fn document(list: Seq<Written>) -> Seq<char>
    decreases list.len(),
{
    if list.len() == 0 {
        Seq::empty()
    } else {
        list[0].text() + document(list.drop_first())
    }
}

proof fn lower_keeps_lacking(s: Seq<char>)
    requires
        seams::lacks(s, '>'),
    ensures
        seams::lacks(text::lower(s), '>'),
{
    let low = text::lower(s);
    assert forall|i: int| 0 <= i < low.len() implies #[trigger] low[i] != '>' by {
        assert(s[i] != '>');
    }
}

/// The lower-cased document with `pre` before an element and `post` behind it.
proof fn lower_of_written(pre: Seq<char>, w: Written, post: Seq<char>)
    ensures
        text::lower(pre + (w.text() + post)) == text::lower(pre) + (text::lower(w.gap) + (
        text::lower(w.open) + text::lower(w.attrs) + seq!['>'] + text::lower(w.body) + text::lower(
            w.close,
        ) + text::lower(post))),
{
    assert(text::lower(pre + (w.text() + post)) =~= text::lower(pre) + (text::lower(w.gap) + (
    text::lower(w.open) + text::lower(w.attrs) + seq!['>'] + text::lower(w.body) + text::lower(
        w.close,
    ) + text::lower(post))));
}

/// An element that stands behind `head` is found where it opens.
proof fn element_stands(
    head: Seq<char>,
    open: Seq<char>,
    attrs: Seq<char>,
    body: Seq<char>,
    close: Seq<char>,
    post: Seq<char>,
)
    requires
        close.len() > 0,
        seams::borderless(close),
        seams::lacks(open, '>'),
        seams::lacks(attrs, '>'),
        !text::contains(body, close),
    ensures
        html::element_at(
            head + (open + attrs + seq!['>'] + body + close + post),
            Some(head.len() as int),
            close,
        ) == Some(
            html::Element {
                open: head.len() as int,
                body: (head.len() + open.len() + attrs.len() + 1) as int,
                end: (head.len() + open.len() + attrs.len() + 1 + body.len()) as int,
            },
        ),
{
    reveal_strlit(">");
    let s = head + (open + attrs + seq!['>'] + body + close + post);
    let at = head.len() as int;
    let gt = at + open.len() + attrs.len();
    assert(s.subrange(gt, gt + 1) =~= ">"@);
    assert forall|j: int| at <= j < gt implies !text::occurs_at(s, ">"@, j) by {
        if j < at + open.len() {
            assert(s[j] == open[j - at]);
        } else {
            assert(s[j] == attrs[j - at - open.len()]);
        }
        assert(s.subrange(j, j + 1)[0] == s[j]);
    }
    text::find_is_unique(s, ">"@, at, gt);
    let before = head + open + attrs + seq!['>'];
    let behind = body + close + post;
    assert(s =~= before + behind);
    seams::found_at_seam(body, close, post);
    seams::find_behind(before, behind, close);
}

/// Behind `pre` and a gap without an opening tag, the next element is the one that stands there.
proof fn element_at_seam(
    pre: Seq<char>,
    gap: Seq<char>,
    open: Seq<char>,
    attrs: Seq<char>,
    body: Seq<char>,
    close: Seq<char>,
    post: Seq<char>,
)
    requires
        open.len() > 0,
        close.len() > 0,
        seams::borderless(open),
        seams::borderless(close),
        !text::contains(gap, open),
        seams::lacks(open, '>'),
        seams::lacks(attrs, '>'),
        !text::contains(body, close),
    ensures
        html::next_element(
            pre + (gap + (open + attrs + seq!['>'] + body + close + post)),
            open,
            close,
            pre.len() as int,
        ) == Some(
            html::Element {
                open: (pre.len() + gap.len()) as int,
                body: (pre.len() + gap.len() + open.len() + attrs.len() + 1) as int,
                end: (pre.len() + gap.len() + open.len() + attrs.len() + 1 + body.len()) as int,
            },
        ),
{
    let here = open + attrs + seq!['>'] + body + close + post;
    let tail = attrs + seq!['>'] + body + close + post;
    assert(gap + here =~= gap + open + tail);
    seams::found_at_seam(gap, open, tail);
    seams::find_behind(pre, gap + open + tail, open);
    element_stands(pre + gap, open, attrs, body, close, post);
    assert(pre + (gap + here) =~= pre + gap + here);
}

proof fn row_tags()
    ensures
        "<tr"@.len() == 3,
        "</tr>"@.len() == 5,
        seams::borderless("<tr"@),
        seams::borderless("</tr>"@),
        seams::lacks("<tr"@, '>'),
{
    reveal_strlit("<tr");
    reveal_strlit("</tr>");
    seams::unique_head_is_borderless("<tr"@);
    seams::unique_head_is_borderless("</tr>"@);
}

proof fn rows_behind(pre: Seq<char>, rows: Seq<Written>, tail: Seq<char>)
    requires
        forall|i: int| 0 <= i < rows.len() ==> (#[trigger] rows[i]).is_row(),
        no_row_stands(tail),
    ensures
        html::row_bodies(pre + (document(rows) + tail), pre.len() as int) == rows.map_values(
            |w: Written| w.body,
        ),
    decreases rows.len(),
{
    row_tags();
    let s = pre + (document(rows) + tail);
    let low = text::lower(s);
    let from = pre.len() as int;
    let want = rows.map_values(|w: Written| w.body);
    if rows.len() == 0 {
        assert(low =~= text::lower(pre) + text::lower(tail));
        seams::find_behind(text::lower(pre), text::lower(tail), "<tr"@);
        text::find_is_first(text::lower(tail), "<tr"@, 0);
        text::find_is_first(low, "<tr"@, from);
        if !text::contains(text::lower(tail), "</tr>"@) {
            unclosed_element(
                text::lower(pre),
                text::lower(tail),
                text::find(low, "<tr"@, from),
                "</tr>"@,
            );
        }
        assert(html::row_bodies(s, from) =~= want);
    } else {
        let w = rows[0];
        let rest = rows.drop_first();
        let post = document(rest) + tail;
        assert(w.is_row());
        assert(w.open.len() == text::lower(w.open).len());
        assert(w.close.len() == text::lower(w.close).len());
        assert(s =~= pre + (w.text() + post));
        lower_of_written(pre, w, post);
        lower_keeps_lacking(w.attrs);
        element_at_seam(
            text::lower(pre),
            text::lower(w.gap),
            "<tr"@,
            text::lower(w.attrs),
            text::lower(w.body),
            "</tr>"@,
            text::lower(post),
        );
        let start = from + w.gap.len() + 3 + w.attrs.len() + 1;
        let end = start + w.body.len();
        assert(s.subrange(start, end) =~= w.body);
        let further = pre + w.text();
        assert(s =~= further + post);
        assert(further.len() == end + 5);
        assert forall|i: int| 0 <= i < rest.len() implies (#[trigger] rest[i]).is_row() by {
            assert(rest[i] == rows[i + 1]);
        }
        rows_behind(further, rest, tail);
        assert(html::row_bodies(s, from) =~= want);
    }
}

/// The rows of a document are read back: whatever stands between them, whatever the attributes
/// and the case of their tags.
pub proof fn rows_read_back(rows: Seq<Written>, tail: Seq<char>)
    requires
        forall|i: int| 0 <= i < rows.len() ==> (#[trigger] rows[i]).is_row(),
        no_row_stands(tail),
    ensures
        html::row_bodies(document(rows) + tail, 0) == rows.map_values(|w: Written| w.body),
{
    let none = Seq::<char>::empty();
    rows_behind(none, rows, tail);
    assert(none + (document(rows) + tail) =~= document(rows) + tail);
}

proof fn cell_tags()
    ensures
        "<td"@.len() == 3,
        "<th"@.len() == 3,
        "<td"@ != "<th"@,
        "</td>"@.len() == 5,
        "</th>"@.len() == 5,
        seams::borderless("<td"@),
        seams::borderless("<th"@),
        seams::borderless("</td>"@),
        seams::borderless("</th>"@),
        seams::lacks("<td"@, '>'),
        seams::lacks("<th"@, '>'),
        "<td"@[0] == '<',
        "<th"@[0] == '<',
        forall|k: int| 0 < k < 3 ==> #[trigger] "<td"@[k] != '<',
        forall|k: int| 0 < k < 3 ==> #[trigger] "<th"@[k] != '<',
{
    reveal_strlit("<td");
    reveal_strlit("<th");
    reveal_strlit("</td>");
    reveal_strlit("</th>");
    assert("<td"@[2] != "<th"@[2]);
    seams::unique_head_is_borderless("<td"@);
    seams::unique_head_is_borderless("<th"@);
    seams::unique_head_is_borderless("</td>"@);
    seams::unique_head_is_borderless("</th>"@);
}

/// Behind `pre` and a gap without either opening tag, the other kind of element opens later.
proof fn other_opens_later(
    pre: Seq<char>,
    gap: Seq<char>,
    here: Seq<char>,
    open: Seq<char>,
    other: Seq<char>,
)
    requires
        open.len() == other.len() == 3,
        open != other,
        open[0] == '<',
        forall|k: int| 0 < k < 3 ==> #[trigger] other[k] != '<',
        !text::contains(gap, other),
        text::occurs_at(here, open, 0),
    ensures
        text::find(pre + (gap + here), other, pre.len() as int) matches Some(i) ==> i > pre.len()
            + gap.len(),
{
    let rest = gap + here;
    text::find_is_first(rest, other, 0);
    seams::find_behind(pre, rest, other);
    if let Some(i) = text::find(rest, other, 0) {
        assert(here.subrange(0, 3)[0] == here[0]);
        if i < gap.len() {
            seams::no_hit_across(gap, here, other, i);
        } else if i == gap.len() {
            assert(rest.subrange(i, i + 3) =~= here.subrange(0, 3));
        }
    }
}

/// A header cell that opens within the gap between `pre` and a tag also opens in the gap alone.
proof fn header_opens_in_gap(pre: Seq<char>, gap: Seq<char>, here: Seq<char>, i: int)
    requires
        here.len() > 0,
        here[0] == '<',
        0 <= i < gap.len(),
        html::opens_at(pre + (gap + here), "<th"@, pre.len() + i),
    ensures
        html::opens_at(gap, "<th"@, i),
{
    cell_tags();
    let rest = gap + here;
    let s = pre + rest;
    assert(s.subrange(pre.len() + i, pre.len() + i + 3) =~= rest.subrange(i, i + 3));
    seams::no_hit_across(gap, here, "<th"@, i);
    if i + 3 < gap.len() {
        assert(s[pre.len() + i + 3] == gap[i + 3]);
    }
}

/// Behind `pre` and a gap where no header cell opens, the next one opens at the tag that follows
/// or later; at that tag just when it is a header cell.
proof fn header_at_seam(pre: Seq<char>, gap: Seq<char>, here: Seq<char>)
    requires
        here.len() > 0,
        here[0] == '<',
        forall|i: int| !html::opens_at(gap, "<th"@, i),
    ensures
        html::opens_at(here, "<th"@, 0) ==> html::find_tag(
            pre + (gap + here),
            "<th"@,
            pre.len() as int,
        ) == Some((pre.len() + gap.len()) as int),
        !text::occurs_at(here, "<th"@, 0) ==> (html::find_tag(
            pre + (gap + here),
            "<th"@,
            pre.len() as int,
        ) matches Some(i) ==> i > pre.len() + gap.len()),
{
    cell_tags();
    let s = pre + (gap + here);
    let from = pre.len() as int;
    let at = from + gap.len();
    html::find_tag_is_first(s, "<th"@, from);
    assert forall|j: int| from <= j < at implies !html::opens_at(s, "<th"@, j) by {
        if html::opens_at(s, "<th"@, j) {
            assert(html::opens_at(pre + (gap + here), "<th"@, pre.len() + (j - from)));
            header_opens_in_gap(pre, gap, here, j - from);
        }
    }
    if here.len() >= 3 {
        assert(s.subrange(at, at + 3) =~= here.subrange(0, 3));
    }
    if here.len() > 3 {
        assert(s[at + 3] == here[3]);
    }
    if html::opens_at(here, "<th"@, 0) {
        assert(html::opens_at(s, "<th"@, at));
    }
}

/// Behind `pre` and a tail where no header cell opens, none is found.
proof fn no_header_behind(pre: Seq<char>, tail: Seq<char>)
    requires
        forall|i: int| !html::opens_at(tail, "<th"@, i),
    ensures
        html::find_tag(pre + tail, "<th"@, pre.len() as int) is None,
{
    cell_tags();
    let s = pre + tail;
    let from = pre.len() as int;
    html::find_tag_is_first(s, "<th"@, from);
    if let Some(i) = html::find_tag(s, "<th"@, from) {
        let j = i - from;
        assert(s.subrange(i, i + 3) =~= tail.subrange(j, j + 3));
        if j + 3 < tail.len() {
            assert(s[i + 3] == tail[j + 3]);
        }
        assert(html::opens_at(tail, "<th"@, j));
    }
}

/// Behind `pre` and the gap before a cell, the next cell is the one that stands there.
proof fn cell_at_seam(pre: Seq<char>, w: Written, post: Seq<char>)
    requires
        w.is_cell(),
    ensures
        ({
            let s = pre + (w.text() + post);
            let start = pre.len() + w.gap.len() + 3 + w.attrs.len() + 1;
            &&& html::next_cell(text::lower(s), pre.len() as int) matches Some(e) && e.body == start
                && e.end == start + w.body.len()
            &&& s.subrange(start as int, (start + w.body.len()) as int) == w.body
            &&& w.text().len() == start - pre.len() + w.body.len() + 5
        }),
{
    cell_tags();
    let s = pre + (w.text() + post);
    let low = text::lower(s);
    let p = text::lower(pre);
    let gap = text::lower(w.gap);
    let attrs = text::lower(w.attrs);
    let body = text::lower(w.body);
    lower_of_written(pre, w, post);
    lower_keeps_lacking(w.attrs);
    assert(w.open.len() == text::lower(w.open).len());
    assert(w.close.len() == text::lower(w.close).len());
    let start = pre.len() + w.gap.len() + 3 + w.attrs.len() + 1;
    assert(s.subrange(start as int, (start + w.body.len()) as int) =~= w.body);
    let here = text::lower(w.open) + attrs + seq!['>'] + body + text::lower(w.close) + text::lower(
        post,
    );
    assert(here.subrange(0, 3) =~= text::lower(w.open));
    html::next_element_bounds(low, "<td"@, "</td>"@, pre.len() as int);
    assert(here[0] == text::lower(w.open)[0]);
    header_at_seam(p, gap, here);
    if w.has_tags("<td"@, "</td>"@) {
        element_at_seam(p, gap, "<td"@, attrs, body, "</td>"@, text::lower(post));
        if let Some(at) = html::find_tag(low, "<th"@, pre.len() as int) {
            html::element_bounds(low, at, "</th>"@);
        }
    } else {
        assert(here[3] == if attrs.len() > 0 {
            text::lower_char(w.attrs[0])
        } else {
            '>'
        });
        assert(html::opens_at(here, "<th"@, 0));
        element_stands(p + gap, "<th"@, attrs, body, "</th>"@, text::lower(post));
        assert(low =~= p + gap + here);
        other_opens_later(p, gap, here, "<th"@, "<td"@);
    }
}

proof fn cells_behind(pre: Seq<char>, cells: Seq<Written>, tail: Seq<char>)
    requires
        forall|i: int| 0 <= i < cells.len() ==> (#[trigger] cells[i]).is_cell(),
        no_cell_stands(tail),
    ensures
        html::cell_texts(pre + (document(cells) + tail), pre.len() as int) == cells.map_values(
            |w: Written| html::stripped(w.body),
        ),
    decreases cells.len(),
{
    cell_tags();
    let s = pre + (document(cells) + tail);
    let low = text::lower(s);
    let from = pre.len() as int;
    let want = cells.map_values(|w: Written| html::stripped(w.body));
    if cells.len() == 0 {
        assert(low =~= text::lower(pre) + text::lower(tail));
        seams::find_behind(text::lower(pre), text::lower(tail), "<td"@);
        text::find_is_first(text::lower(tail), "<td"@, 0);
        if no_cell_opens(tail) {
            no_header_behind(text::lower(pre), text::lower(tail));
        } else {
            let td = text::find(low, "<td"@, from);
            let th = html::find_tag(low, "<th"@, from);
            text::find_is_first(low, "<td"@, from);
            html::find_tag_is_first(low, "<th"@, from);
            unclosed_element(text::lower(pre), text::lower(tail), td, "</td>"@);
            unclosed_element(text::lower(pre), text::lower(tail), th, "</th>"@);
        }
        assert(html::cell_texts(s, from) =~= want);
    } else {
        let w = cells[0];
        let rest = cells.drop_first();
        let post = document(rest) + tail;
        assert(w.is_cell());
        assert(s =~= pre + (w.text() + post));
        cell_at_seam(pre, w, post);
        let further = pre + w.text();
        assert(s =~= further + post);
        assert forall|i: int| 0 <= i < rest.len() implies (#[trigger] rest[i]).is_cell() by {
            assert(rest[i] == cells[i + 1]);
        }
        cells_behind(further, rest, tail);
        assert(html::cell_texts(s, from) =~= want);
    }
}

/// The cells of a row are read back, stripped of tags: data cells and header cells alike, whatever
/// stands between them, whatever the attributes and the case of their tags.
pub proof fn cells_read_back(cells: Seq<Written>, tail: Seq<char>)
    requires
        forall|i: int| 0 <= i < cells.len() ==> (#[trigger] cells[i]).is_cell(),
        no_cell_stands(tail),
    ensures
        html::cell_texts(document(cells) + tail, 0) == cells.map_values(
            |w: Written| html::stripped(w.body),
        ),
{
    let none = Seq::<char>::empty();
    cells_behind(none, cells, tail);
    assert(none + (document(cells) + tail) =~= document(cells) + tail);
}

/// Whether no data cell stands in `s`: none opens, or none is closed.
pub open spec fn no_data_cell_stands(s: Seq<char>) -> bool {
    !text::contains(text::lower(s), "<td"@) || !text::contains(text::lower(s), "</td>"@)
}

proof fn data_cells_behind(pre: Seq<char>, cells: Seq<Written>, tail: Seq<char>)
    requires
        forall|i: int|
            0 <= i < cells.len() ==> (#[trigger] cells[i]).has_tags("<td"@, "</td>"@)
                && !text::contains(text::lower(cells[i].gap), "<td"@),
        no_data_cell_stands(tail),
        !text::contains(text::lower(pre + (document(cells) + tail)), "</th>"@),
    ensures
        html::cell_texts(pre + (document(cells) + tail), pre.len() as int) == cells.map_values(
            |w: Written| html::stripped(w.body),
        ),
    decreases cells.len(),
{
    cell_tags();
    let none = Seq::<char>::empty();
    let s = pre + (document(cells) + tail);
    let low = text::lower(s);
    let from = pre.len() as int;
    let want = cells.map_values(|w: Written| html::stripped(w.body));
    html::find_tag_is_first(low, "<th"@, from);
    unclosed_element(none, low, html::find_tag(low, "<th"@, from), "</th>"@);
    assert(none + low =~= low);
    if cells.len() == 0 {
        assert(low =~= text::lower(pre) + text::lower(tail));
        seams::find_behind(text::lower(pre), text::lower(tail), "<td"@);
        text::find_is_first(text::lower(tail), "<td"@, 0);
        text::find_is_first(low, "<td"@, from);
        if !text::contains(text::lower(tail), "</td>"@) {
            unclosed_element(
                text::lower(pre),
                text::lower(tail),
                text::find(low, "<td"@, from),
                "</td>"@,
            );
        }
        assert(html::cell_texts(s, from) =~= want);
    } else {
        let w = cells[0];
        let rest = cells.drop_first();
        let post = document(rest) + tail;
        assert(w.has_tags("<td"@, "</td>"@));
        assert(w.open.len() == text::lower(w.open).len());
        assert(w.close.len() == text::lower(w.close).len());
        assert(s =~= pre + (w.text() + post));
        lower_of_written(pre, w, post);
        lower_keeps_lacking(w.attrs);
        element_at_seam(
            text::lower(pre),
            text::lower(w.gap),
            "<td"@,
            text::lower(w.attrs),
            text::lower(w.body),
            "</td>"@,
            text::lower(post),
        );
        let start = from + w.gap.len() + 3 + w.attrs.len() + 1;
        let end = start + w.body.len();
        assert(s.subrange(start, end) =~= w.body);
        let further = pre + w.text();
        assert(s =~= further + post);
        assert(further.len() == end + 5);
        assert forall|i: int| 0 <= i < rest.len() implies (#[trigger] rest[i]).has_tags(
            "<td"@,
            "</td>"@,
        ) && !text::contains(text::lower(rest[i].gap), "<td"@) by {
            assert(rest[i] == cells[i + 1]);
        }
        data_cells_behind(further, rest, tail);
        assert(html::cell_texts(s, from) =~= want);
    }
}

/// In a row where no header cell is closed, the cells are the data cells, whatever opens between
/// them.
pub proof fn data_cells_read_back(cells: Seq<Written>, tail: Seq<char>)
    requires
        forall|i: int|
            0 <= i < cells.len() ==> (#[trigger] cells[i]).has_tags("<td"@, "</td>"@)
                && !text::contains(text::lower(cells[i].gap), "<td"@),
        no_data_cell_stands(tail),
        !text::contains(text::lower(document(cells) + tail), "</th>"@),
    ensures
        html::cell_texts(document(cells) + tail, 0) == cells.map_values(
            |w: Written| html::stripped(w.body),
        ),
{
    let none = Seq::<char>::empty();
    assert(none + (document(cells) + tail) =~= document(cells) + tail);
    data_cells_behind(none, cells, tail);
}

// ---------------------------------------------------------------------------
// Attributes
// ---------------------------------------------------------------------------

/// A value without a quotation mark is read back from between `key` and a quotation mark.
proof fn quoted_reads_back(
    pre: Seq<char>,
    mid: Seq<char>,
    key: Seq<char>,
    value: Seq<char>,
    post: Seq<char>,
)
    requires
        key.len() > 0,
        seams::borderless(key),
        !text::contains(mid, key),
        seams::lacks(value, '"'),
    ensures
        html::quoted_after(pre + (mid + key + value + seq!['"'] + post), key, pre.len() as int)
            == Some(value),
{
    reveal_strlit("\"");
    let rest = value + seq!['"'] + post;
    let all = mid + key + rest;
    let s = pre + (mid + key + value + seq!['"'] + post);
    assert(s =~= pre + all);
    seams::found_at_seam(mid, key, rest);
    seams::find_behind(pre, all, key);
    let before = pre + mid + key;
    assert(s =~= before + rest);
    assert("\""@ =~= seq!['"']);
    seams::lacking_text_lacks_pattern(value, "\""@, 0);
    seams::unique_head_is_borderless("\""@);
    seams::found_at_seam(value, "\""@, post);
    seams::find_behind(before, rest, "\""@);
    assert(s.subrange(before.len() as int, (before.len() + value.len()) as int) =~= value);
}

/// The first link of a fragment is read back: what stands between `href="` and the next
/// quotation mark.
pub proof fn href_reads_back(pre: Seq<char>, value: Seq<char>, post: Seq<char>)
    requires
        !text::contains(pre, "href=\""@),
        seams::lacks(value, '"'),
    ensures
        html::href_value(pre + "href=\""@ + value + seq!['"'] + post) == Some(value),
{
    reveal_strlit("href=\"");
    seams::unique_head_is_borderless("href=\""@);
    let none = Seq::<char>::empty();
    quoted_reads_back(none, pre, "href=\""@, value, post);
    assert(none + (pre + "href=\""@ + value + seq!['"'] + post) =~= pre + "href=\""@ + value
        + seq!['"'] + post);
}

proof fn field_name()
    ensures
        "name=\"csrfmiddlewaretoken\""@.len() > 0,
        seams::borderless("name=\"csrfmiddlewaretoken\""@),
{
    reveal_strlit("name=\"csrfmiddlewaretoken\"");
    let name = "name=\"csrfmiddlewaretoken\""@;
    assert forall|k: int| 0 < k < name.len() implies #[trigger] name.skip(k) != name.take(
        name.len() - k,
    ) by {
        if k < name.len() - 1 {
            assert(name.skip(k)[0] == name[k]);
            assert(name.skip(k)[1] == name[k + 1]);
            assert(name.take(name.len() - k)[0] == name[0]);
            assert(name.take(name.len() - k)[1] == name[1]);
        } else {
            assert(name.skip(k)[0] == name[k]);
            assert(name.take(name.len() - k)[0] == name[0]);
        }
    }
}

/// The token of a form is read back: the first value behind the field's name.
pub proof fn csrf_reads_back(
    pre: Seq<char>,
    mid: Seq<char>,
    value: Seq<char>,
    post: Seq<char>,
)
    requires
        !text::contains(pre, "name=\"csrfmiddlewaretoken\""@),
        !text::contains("name=\"csrfmiddlewaretoken\""@ + mid, "value=\""@),
        seams::lacks(value, '"'),
    ensures
        html::csrf_value(
            pre + "name=\"csrfmiddlewaretoken\""@ + mid + "value=\""@ + value + seq!['"'] + post,
        ) == Some(value),
{
    let name = "name=\"csrfmiddlewaretoken\""@;
    let key = "value=\""@;
    reveal_strlit("name=\"csrfmiddlewaretoken\"");
    reveal_strlit("value=\"");
    field_name();
    seams::unique_head_is_borderless(key);
    let rest = mid + key + value + seq!['"'] + post;
    let s = pre + name + mid + key + value + seq!['"'] + post;
    assert(s =~= pre + name + rest);
    seams::found_at_seam(pre, name, rest);
    quoted_reads_back(pre, name + mid, key, value, post);
    assert(s =~= pre + (name + mid + key + value + seq!['"'] + post));
}

/// A page without the field's name holds no token.
pub proof fn no_token_without_field(s: Seq<char>)
    requires
        !text::contains(s, "name=\"csrfmiddlewaretoken\""@),
    ensures
        html::csrf_value(s) is None,
{
    text::find_is_first(s, "name=\"csrfmiddlewaretoken\""@, 0);
}

/// A fragment without `href="` holds no link, nor does one where no quotation mark closes it.
pub proof fn no_link_without_quotes(pre: Seq<char>, value: Seq<char>)
    requires
        !text::contains(pre, "href=\""@),
        seams::lacks(value, '"'),
    ensures
        html::href_value(pre) is None,
        html::href_value(pre + "href=\""@ + value) is None,
{
    reveal_strlit("href=\"");
    text::find_is_first(pre, "href=\""@, 0);
    seams::unique_head_is_borderless("href=\""@);
    seams::found_at_seam(pre, "href=\""@, value);
    no_quotation_mark_behind(pre + "href=\""@, value);
}

proof fn no_quotation_mark_behind(front: Seq<char>, value: Seq<char>)
    requires
        seams::lacks(value, '"'),
    ensures
        text::find(front + value, "\""@, front.len() as int) is None,
{
    reveal_strlit("\"");
    seams::find_behind(front, value, "\""@);
    seams::lacking_text_lacks_pattern(value, "\""@, 0);
    text::find_is_first(value, "\""@, 0);
}

/// A field without a value behind its name holds no token, nor does one where no quotation mark
/// closes the value.
pub proof fn no_token_without_value(pre: Seq<char>, mid: Seq<char>, value: Seq<char>)
    requires
        !text::contains(pre, "name=\"csrfmiddlewaretoken\""@),
        !text::contains("name=\"csrfmiddlewaretoken\""@ + mid, "value=\""@),
        seams::lacks(value, '"'),
    ensures
        html::csrf_value(pre + ("name=\"csrfmiddlewaretoken\""@ + mid)) is None,
        html::csrf_value(pre + ("name=\"csrfmiddlewaretoken\""@ + mid) + "value=\""@ + value)
            is None,
{
    let name = "name=\"csrfmiddlewaretoken\""@;
    let key = "value=\""@;
    field_name();
    reveal_strlit("value=\"");
    seams::unique_head_is_borderless(key);
    let field = name + mid;
    seams::found_at_seam(pre, name, mid);
    assert(pre + field =~= pre + name + mid);
    seams::find_behind(pre, field, key);
    text::find_is_first(field, key, 0);
    let open = field + key + value;
    let s = pre + field + key + value;
    assert(s =~= pre + name + (mid + key + value));
    seams::found_at_seam(pre, name, mid + key + value);
    assert(s =~= pre + open);
    seams::found_at_seam(field, key, value);
    seams::find_behind(pre, open, key);
    no_quotation_mark_behind(pre + field + key, value);
}

/// The token of a page stands on it between quotation marks, whole, behind the field's name.
pub proof fn token_stands_on_the_page(page: Seq<char>, token: Seq<char>)
    requires
        html::csrf_value(page) == Some(token),
    ensures
        seams::lacks(token, '"'),
        exists|pre: Seq<char>, post: Seq<char>|
            page == #[trigger] (pre + "value=\""@ + token + seq!['"'] + post) && text::contains(
                pre + "value=\""@,
                "name=\"csrfmiddlewaretoken\""@,
            ),
{
    reveal_strlit("name=\"csrfmiddlewaretoken\"");
    reveal_strlit("value=\"");
    reveal_strlit("\"");
    let name = "name=\"csrfmiddlewaretoken\""@;
    let key = "value=\""@;
    text::find_is_first(page, name, 0);
    let at = text::find(page, name, 0).unwrap();
    text::find_is_first(page, key, at);
    let v = text::find(page, key, at).unwrap();
    let start = v + key.len();
    text::find_is_first(page, "\""@, start);
    let end = text::find(page, "\""@, start).unwrap();
    assert forall|i: int| 0 <= i < token.len() implies #[trigger] token[i] != '"' by {
        assert(!text::occurs_at(page, "\""@, start + i));
        assert(token[i] == page[start + i]);
        assert(page[start + i] == '"' ==> page.subrange(start + i, start + i + 1) =~= "\""@);
    }
    let pre = page.take(v);
    let post = page.skip(end + 1);
    assert(page.subrange(v, start) =~= key);
    assert(page.subrange(end, end + 1) =~= seq!['"']);
    assert(page =~= pre + key + token + seq!['"'] + post) by {
        let all = pre + page.subrange(v, start) + token + page.subrange(end, end + 1) + post;
        assert(page =~= all);
    }
    let front = pre + key;
    assert(front =~= page.take(start));
    name_ends_before_value(page, at, v);
    assert(front.subrange(at, at + name.len()) =~= page.subrange(at, at + name.len()));
    assert(text::occurs_at(front, name, at));
}

/// The field's name does not reach beyond the `value="` that follows it.
proof fn name_ends_before_value(page: Seq<char>, at: int, v: int)
    requires
        text::occurs_at(page, "name=\"csrfmiddlewaretoken\""@, at),
        text::occurs_at(page, "value=\""@, v),
        at <= v,
    ensures
        at + "name=\"csrfmiddlewaretoken\""@.len() <= v + "value=\""@.len(),
{
    reveal_strlit("name=\"csrfmiddlewaretoken\"");
    reveal_strlit("value=\"");
    let name = "name=\"csrfmiddlewaretoken\""@;
    let key = "value=\""@;
    if at + name.len() > v + key.len() {
        let k = v - at;
        assert(page.subrange(v, v + key.len())[0] == page[v]);
        assert(page.subrange(at, at + name.len())[k] == page[v]);
        assert(name[k] == 'v');
    }
}

} // verus!
