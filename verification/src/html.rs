//! A small tag scan over HTML. The disclosure tables are flat, so no document tree is built.

use vstd::prelude::*;
use vstd::slice::slice_subrange;
use crate::text;
use crate::text::{chars_of, joined, lowered, position, replaced, text_of, words_of};

verus! {

// ---------------------------------------------------------------------------
// Cleaning
// ---------------------------------------------------------------------------

/// `s` with `&amp;` and `&nbsp;` decoded and with its words a single space apart.
pub open spec fn cleaned(s: Seq<char>) -> Seq<char> {
    text::join(text::words(decoded(s)), ' ')
}

/// `s` with `&amp;` turned into `&`, and then `&nbsp;` into a space.
pub open spec fn decoded(s: Seq<char>) -> Seq<char> {
    text::replace(text::replace(s, "&amp;"@, "&"@), "&nbsp;"@, " "@)
}

/// Cleans a row of characters.
pub fn clean_chars(s: &[char]) -> (r: Vec<char>)
    ensures
        r@ == cleaned(s@),
{
    proof {
        reveal_strlit("&amp;");
        reveal_strlit("&nbsp;");
    }
    let ampersands = replaced(s, "&amp;", "&");
    let spaces = replaced(ampersands.as_slice(), "&nbsp;", " ");
    joined(&words_of(spaces.as_slice()), ' ')
}

/// Decodes `&amp;` and `&nbsp;` and collapses white space.
pub fn clean(s: &str) -> (r: String)
    ensures
        r@ == cleaned(s@),
{
    text_of(clean_chars(chars_of(s).as_slice()).as_slice())
}

/// What is left of `s` when its tags are taken out; `in_tag` says whether `s` begins inside one.
/// A tag reaches from `<` to the next `>`; a `>` outside a tag is dropped too.
pub open spec fn untagged(s: Seq<char>, in_tag: bool) -> Seq<char>
    decreases s.len(),
{
    if s.len() == 0 {
        Seq::empty()
    } else {
        let rest = s.drop_first();
        if s[0] == '<' {
            untagged(rest, true)
        } else if s[0] == '>' {
            untagged(rest, false)
        } else if in_tag {
            untagged(rest, true)
        } else {
            seq![s[0]] + untagged(rest, false)
        }
    }
}

/// `s` without its tags, cleaned.
pub open spec fn stripped(s: Seq<char>) -> Seq<char> {
    cleaned(untagged(s, false))
}

/// Strips tags from a row of characters and cleans it.
fn strip_chars(s: &[char]) -> (r: Vec<char>)
    ensures
        r@ == stripped(s@),
{
    let mut out: Vec<char> = Vec::new();
    let mut in_tag = false;
    let mut i: usize = 0;
    assert(s@.skip(0) =~= s@);
    assert(Seq::<char>::empty() + untagged(s@, false) =~= untagged(s@, false));
    while i < s.len()
        invariant
            i <= s@.len(),
            untagged(s@, false) == out@ + untagged(s@.skip(i as int), in_tag),
        decreases s@.len() - i,
    {
        let ghost before = out@;
        let ghost rest = s@.skip(i + 1);
        assert(s@.skip(i as int).drop_first() =~= rest);
        let c = s[i];
        if c == '<' {
            in_tag = true;
        } else if c == '>' {
            in_tag = false;
        } else if !in_tag {
            out.push(c);
            assert(before + (seq![c] + untagged(rest, false)) =~= before.push(c) + untagged(
                rest,
                false,
            ));
        }
        i = i + 1;
    }
    assert(out@ + Seq::<char>::empty() =~= out@);
    clean_chars(out.as_slice())
}

/// Strips HTML tags and collapses white space.
pub fn strip_tags(s: &str) -> (r: String)
    ensures
        r@ == stripped(s@),
{
    text_of(strip_chars(chars_of(s).as_slice()).as_slice())
}

// ---------------------------------------------------------------------------
// Table rows and cells
// ---------------------------------------------------------------------------

/// Where an element stands in a text: its opening tag begins at `open`, and what it encloses
/// reaches from `body` up to `end`, where its closing tag begins.
pub struct Element {
    pub open: int,
    pub body: int,
    pub end: int,
}

/// The element whose opening tag begins at `at` and whose closing tag is `close`; `None` where no
/// element opens, or where that opening has no `>` or no closing tag after it.
pub open spec fn element_at(s: Seq<char>, at: Option<int>, close: Seq<char>) -> Option<Element> {
    match at {
        None => None,
        Some(at) => match text::find(s, ">"@, at) {
            None => None,
            Some(gt) => match text::find(s, close, gt + 1) {
                None => None,
                Some(end) => Some(Element { open: at, body: gt + 1, end }),
            },
        },
    }
}

/// The first element at or after `from` that opens with `open` and closes with `close`.
pub open spec fn next_element(
    s: Seq<char>,
    open: Seq<char>,
    close: Seq<char>,
    from: int,
) -> Option<Element> {
    element_at(s, text::find(s, open, from), close)
}

/// An element lies where it opens or after that, and inside the text.
pub proof fn element_bounds(s: Seq<char>, at: int, close: Seq<char>)
    requires
        0 <= at,
    ensures
        element_at(s, Some(at), close) matches Some(e) ==> at == e.open < e.body <= e.end && e.end
            + close.len() <= s.len(),
{
    reveal_strlit(">");
    text::find_is_first(s, ">"@, at);
    if let Some(gt) = text::find(s, ">"@, at) {
        text::find_is_first(s, close, gt + 1);
    }
}

/// An element lies after the position that it is looked for from, and inside the text.
pub proof fn next_element_bounds(s: Seq<char>, open: Seq<char>, close: Seq<char>, from: int)
    requires
        0 <= from,
    ensures
        next_element(s, open, close, from) matches Some(e) ==> from <= e.open < e.body <= e.end
            && e.end + close.len() <= s.len(),
{
    text::find_is_first(s, open, from);
    if let Some(at) = text::find(s, open, from) {
        element_bounds(s, at, close);
    }
}

/// The element whose opening tag begins at `at`: where its body begins and ends.
fn element_from(s: &[char], at: Option<usize>, close: &str) -> (r: Option<(usize, usize, usize)>)
    ensures
        ({
            let place = match at {
                Some(i) => Some(i as int),
                None => None,
            };
            match r {
                Some((open, body, end)) => element_at(s@, place, close@) == Some(
                    Element { open: open as int, body: body as int, end: end as int },
                ),
                None => element_at(s@, place, close@) is None,
            }
        }),
{
    match at {
        None => None,
        Some(at) => match position(s, ">", at) {
            None => None,
            Some(gt) => {
                proof {
                    reveal_strlit(">");
                    text::find_is_first(s@, ">"@, at as int);
                    assert(s.len() == s@.len());
                }
                match position(s, close, gt + 1) {
                    None => None,
                    Some(end) => Some((at, gt + 1, end)),
                }
            },
        },
    }
}

/// The bodies of the table rows of `s` from position `from` on. Tags are recognised whatever
/// the case of their letters.
pub open spec fn row_bodies(s: Seq<char>, from: int) -> Seq<Seq<char>>
    decreases s.len() - from,
    when 0 <= from <= s.len()
{
    proof {
        reveal_strlit("</tr>");
        next_element_bounds(text::lower(s), "<tr"@, "</tr>"@, from);
    }
    match next_element(text::lower(s), "<tr"@, "</tr>"@, from) {
        None => Seq::empty(),
        Some(e) => seq![s.subrange(e.body, e.end)] + row_bodies(s, e.end + "</tr>"@.len()),
    }
}

/// The body of each `<tr>…</tr>` in the document, whatever the case of the tags.
pub fn table_rows(html: &str) -> (r: Vec<String>)
    ensures
        text::texts(r@) == row_bodies(html@, 0),
{
    let page = chars_of(html);
    let low = lowered(page.as_slice());
    let mut rows: Vec<String> = Vec::new();
    let n: usize = page.len();
    let mut search: usize = 0;
    assert(text::texts(rows@) + row_bodies(html@, 0) =~= row_bodies(html@, 0));
    loop
        invariant
            page@ == html@,
            low@ == text::lower(html@),
            search <= n == html@.len(),
            row_bodies(html@, 0) == text::texts(rows@) + row_bodies(html@, search as int),
        decreases html@.len() - search,
    {
        proof {
            reveal_strlit("</tr>");
            next_element_bounds(low@, "<tr"@, "</tr>"@, search as int);
        }
        match element_from(
            low.as_slice(),
            position(low.as_slice(), "<tr", search),
            "</tr>",
        ) {
            None => {
                assert(text::texts(rows@) + Seq::<Seq<char>>::empty()
                    =~= text::texts(rows@));
                return rows;
            },
            Some((_, body, end)) => {
                let row = text_of(slice_subrange(page.as_slice(), body, end));
                let ghost before = rows@;
                rows.push(row);
                proof {
                    let rest = row_bodies(html@, end + 5);
                    assert(text::texts(before.push(row)) =~= text::texts(
                        before,
                    ).push(row@));
                    assert(text::texts(before) + (seq![row@] + rest)
                        =~= text::texts(before).push(row@) + rest);
                }
                search = end + 5;
            },
        }
    }
}

/// Whether `c` is an ASCII letter.
pub open spec fn is_letter(c: char) -> bool {
    ('a' <= c && c <= 'z') || ('A' <= c && c <= 'Z')
}

/// Whether `c` is an ASCII letter.
fn letter(c: char) -> (r: bool)
    ensures
        r == is_letter(c),
{
    ('a' <= c && c <= 'z') || ('A' <= c && c <= 'Z')
}

/// Whether a tag begins with `name` at position `i`, where no further letter belongs to its name.
pub open spec fn opens_at(s: Seq<char>, name: Seq<char>, i: int) -> bool {
    &&& text::occurs_at(s, name, i)
    &&& i + name.len() < s.len() ==> !is_letter(s[i + name.len()])
}

/// The first position at or after `from` where a tag begins with `name`.
pub open spec fn find_tag(s: Seq<char>, name: Seq<char>, from: int) -> Option<int>
    decreases s.len() + 1 - from,
{
    if from < 0 || from + name.len() > s.len() {
        None
    } else if opens_at(s, name, from) {
        Some(from)
    } else {
        find_tag(s, name, from + 1)
    }
}

/// What `find_tag` returns is the first position at or after `from` where such a tag begins, and
/// it returns a position whenever there is one.
pub proof fn find_tag_is_first(s: Seq<char>, name: Seq<char>, from: int)
    requires
        0 <= from,
    ensures
        find_tag(s, name, from) matches Some(i) ==> {
            &&& from <= i
            &&& opens_at(s, name, i)
            &&& forall|j: int| from <= j < i ==> !opens_at(s, name, j)
        },
        find_tag(s, name, from) is None ==> forall|j: int| from <= j ==> !opens_at(s, name, j),
    decreases s.len() + 1 - from,
{
    if from + name.len() <= s.len() && !opens_at(s, name, from) {
        find_tag_is_first(s, name, from + 1);
    }
}

/// No tag begins before the first position where its name stands.
proof fn find_tag_from_hit(s: Seq<char>, name: Seq<char>, from: int)
    requires
        0 <= from,
    ensures
        find_tag(s, name, from) == match text::find(s, name, from) {
            Some(i) => find_tag(s, name, i),
            None => None,
        },
    decreases s.len() + 1 - from,
{
    if from + name.len() <= s.len() && !text::occurs_at(s, name, from) {
        find_tag_from_hit(s, name, from + 1);
    }
}

/// The first position at or after `from` where a tag begins with `name`.
fn tag_position(s: &[char], name: &str, from: usize) -> (r: Option<usize>)
    requires
        name@.len() > 0,
    ensures
        match r {
            Some(i) => find_tag(s@, name@, from as int) == Some(i as int),
            None => find_tag(s@, name@, from as int) is None,
        },
{
    let width: usize = chars_of(name).len();
    let n: usize = s.len();
    let mut i: usize = from;
    loop
        invariant
            width == name@.len(),
            width > 0,
            n == s@.len(),
            find_tag(s@, name@, from as int) == find_tag(s@, name@, i as int),
        decreases s@.len() + 1 - i,
    {
        proof {
            find_tag_from_hit(s@, name@, i as int);
            text::find_is_first(s@, name@, i as int);
        }
        match position(s, name, i) {
            None => return None,
            Some(at) => {
                if at + width < n && letter(s[at + width]) {
                    i = at + 1;
                } else {
                    return Some(at);
                }
            },
        }
    }
}

/// The first header cell at or after `from`. A tag with a longer name, as `<thead>`, opens none.
pub open spec fn next_header(s: Seq<char>, from: int) -> Option<Element> {
    element_at(s, find_tag(s, "<th"@, from), "</th>"@)
}

/// The first table cell at or after `from`, be it a data cell or a header cell.
pub open spec fn next_cell(s: Seq<char>, from: int) -> Option<Element> {
    let td = next_element(s, "<td"@, "</td>"@, from);
    let th = next_header(s, from);
    match (td, th) {
        (Some(d), Some(h)) => if h.open < d.open {
            th
        } else {
            td
        },
        (Some(d), None) => td,
        _ => th,
    }
}

/// A cell lies after the position that it is looked for from, and inside the text.
pub proof fn next_cell_bounds(s: Seq<char>, from: int)
    requires
        0 <= from,
    ensures
        next_cell(s, from) matches Some(e) ==> from <= e.open < e.body <= e.end && e.end + 5
            <= s.len(),
        "</td>"@.len() == 5,
        "</th>"@.len() == 5,
{
    reveal_strlit("</td>");
    reveal_strlit("</th>");
    next_element_bounds(s, "<td"@, "</td>"@, from);
    find_tag_is_first(s, "<th"@, from);
    if let Some(at) = find_tag(s, "<th"@, from) {
        element_bounds(s, at, "</th>"@);
    }
}

/// The texts of the cells of `s` from position `from` on.
pub open spec fn cell_texts(s: Seq<char>, from: int) -> Seq<Seq<char>>
    decreases s.len() - from,
    when 0 <= from <= s.len()
{
    proof {
        next_cell_bounds(text::lower(s), from);
    }
    match next_cell(text::lower(s), from) {
        None => Seq::empty(),
        Some(e) => seq![stripped(s.subrange(e.body, e.end))] + cell_texts(
            s,
            e.end + "</td>"@.len(),
        ),
    }
}

/// The first cell at or after `from`: where its body begins and ends.
fn cell_after(s: &[char], from: usize) -> (r: Option<(usize, usize)>)
    ensures
        match r {
            Some((body, end)) => next_cell(s@, from as int) matches Some(e) && e.body == body
                && e.end == end,
            None => next_cell(s@, from as int) is None,
        },
{
    proof {
        reveal_strlit("<th");
    }
    let td = element_from(s, position(s, "<td", from), "</td>");
    let th = element_from(s, tag_position(s, "<th", from), "</th>");
    match (td, th) {
        (Some((d, d_body, d_end)), Some((h, h_body, h_end))) => if h < d {
            Some((h_body, h_end))
        } else {
            Some((d_body, d_end))
        },
        (Some((_, body, end)), None) => Some((body, end)),
        (None, Some((_, body, end))) => Some((body, end)),
        (None, None) => None,
    }
}

/// The text of each `<td>…</td>` or `<th>…</th>` in a row, with its tags stripped.
pub fn row_cells(row: &str) -> (r: Vec<String>)
    ensures
        text::texts(r@) == cell_texts(row@, 0),
{
    let page = chars_of(row);
    let low = lowered(page.as_slice());
    let mut cells: Vec<String> = Vec::new();
    let n: usize = page.len();
    let mut search: usize = 0;
    assert(text::texts(cells@) + cell_texts(row@, 0) =~= cell_texts(row@, 0));
    loop
        invariant
            page@ == row@,
            low@ == text::lower(row@),
            search <= n == row@.len(),
            cell_texts(row@, 0) == text::texts(cells@) + cell_texts(row@, search as int),
        decreases row@.len() - search,
    {
        proof {
            next_cell_bounds(low@, search as int);
        }
        match cell_after(low.as_slice(), search) {
            None => {
                assert(text::texts(cells@) + Seq::<Seq<char>>::empty()
                    =~= text::texts(cells@));
                return cells;
            },
            Some((body, end)) => {
                let inner = slice_subrange(page.as_slice(), body, end);
                let cell = text_of(strip_chars(inner).as_slice());
                let ghost before = cells@;
                cells.push(cell);
                proof {
                    let rest = cell_texts(row@, end + 5);
                    assert(text::texts(before.push(cell)) =~= text::texts(
                        before,
                    ).push(cell@));
                    assert(text::texts(before) + (seq![cell@] + rest)
                        =~= text::texts(before).push(cell@) + rest);
                }
                search = end + 5;
            },
        }
    }
}

// ---------------------------------------------------------------------------
// Attributes
// ---------------------------------------------------------------------------

/// What stands between the first `key` at or after `from` and the next quotation mark.
pub open spec fn quoted_after(s: Seq<char>, key: Seq<char>, from: int) -> Option<Seq<char>> {
    match text::find(s, key, from) {
        None => None,
        Some(at) => match text::find(s, "\""@, at + key.len()) {
            None => None,
            Some(end) => Some(s.subrange(at + key.len(), end)),
        },
    }
}

/// What stands between the first `key` at or after `from` and the next quotation mark.
fn quoted(s: &[char], key: &str, from: usize) -> (r: Option<String>)
    ensures
        match r {
            Some(v) => quoted_after(s@, key@, from as int) == Some(v@),
            None => quoted_after(s@, key@, from as int) is None,
        },
{
    let width: usize = chars_of(key).len();
    proof {
        reveal_strlit("\"");
        text::find_is_first(s@, key@, from as int);
        assert(s.len() == s@.len());
    }
    match position(s, key, from) {
        None => None,
        Some(at) => {
            proof {
                text::find_is_first(s@, "\""@, at + width);
            }
            match position(s, "\"", at + width) {
                None => None,
                Some(end) => Some(text_of(slice_subrange(s, at + width, end))),
            }
        },
    }
}

/// The first `href` value in a fragment.
pub open spec fn href_value(s: Seq<char>) -> Option<Seq<char>> {
    quoted_after(s, "href=\""@, 0)
}

/// The first `href="…"` value in an HTML fragment.
pub fn extract_href(fragment: &str) -> (r: Option<String>)
    ensures
        match r {
            Some(v) => href_value(fragment@) == Some(v@),
            None => href_value(fragment@) is None,
        },
{
    quoted(chars_of(fragment).as_slice(), "href=\"", 0)
}

/// The value of the anti-forgery field of a form: the first `value` after the field's name.
pub open spec fn csrf_value(s: Seq<char>) -> Option<Seq<char>> {
    match text::find(s, "name=\"csrfmiddlewaretoken\""@, 0) {
        None => None,
        Some(at) => quoted_after(s, "value=\""@, at),
    }
}

/// The Django `csrfmiddlewaretoken` value of the home page.
pub fn extract_csrf(html: &str) -> (r: Option<String>)
    ensures
        match r {
            Some(v) => csrf_value(html@) == Some(v@),
            None => csrf_value(html@) is None,
        },
{
    let page = chars_of(html);
    match position(page.as_slice(), "name=\"csrfmiddlewaretoken\"", 0) {
        None => None,
        Some(at) => quoted(page.as_slice(), "value=\"", at),
    }
}

} // verus!
