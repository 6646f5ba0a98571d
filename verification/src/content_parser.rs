//! Splits a document into front matter and body, and reads the front
//! matter's lines as a key/value mapping.

use crate::entities::{
    ContentKind, Date, Metadata, MetadataError, MetadataErrorView, MetadataView, ParseError,
    RawPost, RequiredField, SiteConfig,
};
use crate::date::{date_outcome, date_reading_of, read_date};
use crate::front_matter::{
    distinct_keys, insert_pair, lemma_insert_pair, pairs_map, remove_key, FrontMatter, Pair,
};
use crate::text::{
    block_text, chars_of, find_char, has_prefix, is_line, join_lines, lemma_lines_of_block,
    lemma_position_unique, lemma_trim_ignores_leading_space,
    lemma_trimmed_has_no_spaces_around, lines, position, split, split_lines, split_trimmed,
    starts_with, string_of, texts_of, trim, trim_bounds,
};
use vstd::prelude::*;
use vstd::string::StringExecFns;

verus! {

/// The marker that opens and closes the front matter.
pub open spec fn delimiter() -> Seq<char> {
    seq!['-', '-', '-']
}

/// Whether `line` is a delimiter line: one that begins with the marker,
/// whatever follows it.
pub open spec fn is_delimiter(line: Seq<char>) -> bool {
    starts_with(line, delimiter())
}

/// Index of the first delimiter line among `ls`, or `ls.len()` when there
/// is none.
pub open spec fn first_delimiter(ls: Seq<Seq<char>>) -> int
    decreases ls.len(),
{
    if ls.len() == 0 || is_delimiter(ls[0]) {
        0
    } else {
        1 + first_delimiter(ls.drop_first())
    }
}

/// The entry that a front-matter line stands for. The first `:` parts the
/// key from the value, and both are trimmed. A line without `:` and a line
/// whose trimmed value is empty stand for no entry.
pub open spec fn entry_of(line: Seq<char>) -> Option<Pair> {
    let colon = position(line, ':');
    if 0 <= colon < line.len() {
        let value = trim(line.skip(colon + 1));
        if value.len() == 0 {
            None
        } else {
            Some((trim(line.take(colon)), value))
        }
    } else {
        None
    }
}

/// The mapping that front-matter lines stand for. Of two lines with one
/// key the later one decides.
pub open spec fn front_matter_of(ls: Seq<Seq<char>>) -> Map<Seq<char>, Seq<char>>
    decreases ls.len(),
{
    if ls.len() == 0 {
        Map::empty()
    } else {
        let before = front_matter_of(ls.drop_last());
        match entry_of(ls.last()) {
            Some(entry) => before.insert(entry.0, entry.1),
            None => before,
        }
    }
}

/// The entries that front-matter lines stand for, in the order in which
/// their keys first occur.
pub open spec fn front_matter_pairs(ls: Seq<Seq<char>>) -> Seq<Pair>
    decreases ls.len(),
{
    if ls.len() == 0 {
        Seq::empty()
    } else {
        let before = front_matter_pairs(ls.drop_last());
        match entry_of(ls.last()) {
            Some(entry) => insert_pair(before, entry.0, entry.1),
            None => before,
        }
    }
}

/// The two parts of a document: the lines of its front matter and the lines
/// of its body.
pub struct DocumentParts {
    pub front_matter: Seq<Seq<char>>,
    pub body: Seq<Seq<char>>,
}

/// Parts `content` into front matter and body, or gives `None` where
/// `content` has no lines or its first line is no delimiter line. The front
/// matter runs from the second line up to the next delimiter line, the body
/// from the line after that one to the end. Without a closing delimiter
/// line all lines after the first are front matter.
pub open spec fn document_parts(content: Seq<char>) -> Option<DocumentParts> {
    let ls = lines(content);
    if ls.len() == 0 || !is_delimiter(ls[0]) {
        None
    } else {
        let rest = ls.skip(1);
        let close = first_delimiter(rest);
        Some(
            DocumentParts {
                front_matter: rest.take(close),
                body: if 0 <= close < rest.len() {
                    rest.skip(close + 1)
                } else {
                    Seq::empty()
                },
            },
        )
    }
}

/// `first_delimiter` lies within the lines, holds a delimiter line where it
/// lies before the end, and has none before it.
pub proof fn lemma_first_delimiter(ls: Seq<Seq<char>>)
    ensures
        0 <= first_delimiter(ls) <= ls.len(),
        first_delimiter(ls) < ls.len() ==> is_delimiter(ls[first_delimiter(ls)]),
        forall|i: int| 0 <= i < first_delimiter(ls) ==> !is_delimiter(ls[i]),
    decreases ls.len(),
{
    if ls.len() != 0 && !is_delimiter(ls[0]) {
        let rest = ls.drop_first();
        lemma_first_delimiter(rest);
        assert forall|i: int| 0 <= i < first_delimiter(ls) implies !is_delimiter(ls[i]) by {
            if i > 0 {
                assert(ls[i] == rest[i - 1]);
            }
        }
    }
}

/// `first_delimiter` is the only index that holds a delimiter line and has
/// none before it.
pub proof fn lemma_first_delimiter_unique(ls: Seq<Seq<char>>, p: int)
    requires
        0 <= p <= ls.len(),
        p < ls.len() ==> is_delimiter(ls[p]),
        forall|i: int| 0 <= i < p ==> !is_delimiter(ls[i]),
    ensures
        first_delimiter(ls) == p,
{
    lemma_first_delimiter(ls);
}

/// The front-matter line that states `value` for `key`.
pub open spec fn entry_line(key: Seq<char>, value: Seq<char>) -> Seq<char> {
    key + seq![':', ' '] + value
}

/// The text of a document: the marker on a line of its own, the
/// front-matter lines `front`, the marker on a line of its own again, and
/// then `body`.
pub open spec fn document_text(front: Seq<Seq<char>>, body: Seq<char>) -> Seq<char> {
    block_text(seq![delimiter()] + front + seq![delimiter()]) + body
}

/// A document that is written as `document_text` writes it is parted into
/// the front-matter lines it was written from and the lines of its body,
/// where none of those front-matter lines is a delimiter line.
pub proof fn lemma_document_parts(front: Seq<Seq<char>>, body: Seq<char>)
    requires
        forall|i: int|
            0 <= i < front.len() ==> is_line(#[trigger] front[i]) && !is_delimiter(front[i]),
    ensures
        document_parts(document_text(front, body)) == Some(
            DocumentParts { front_matter: front, body: lines(body) },
        ),
{
    let mark = delimiter();
    assert(is_line(mark));
    assert(is_delimiter(mark)) by {
        assert(mark.take(3) == mark);
    }
    let head = seq![mark] + front + seq![mark];
    assert forall|i: int| 0 <= i < head.len() implies is_line(#[trigger] head[i]) by {
        if 0 < i <= front.len() {
            assert(head[i] == front[i - 1]);
        }
    }
    lemma_lines_of_block(head, body);
    let all = lines(document_text(front, body));
    assert(all == head + lines(body));
    let rest = all.skip(1);
    assert(rest == front + seq![mark] + lines(body));
    assert forall|i: int| 0 <= i < front.len() implies !is_delimiter(rest[i]) by {
        assert(rest[i] == front[i]);
    }
    assert(rest[front.len() as int] == mark);
    lemma_first_delimiter_unique(rest, front.len() as int);
    assert(rest.take(front.len() as int) == front);
    assert(rest.skip(front.len() as int + 1) == lines(body));
}

/// The line `key: value` stands for the entry of the trimmed key and the
/// trimmed value, where `key` holds no `:` and `value` is not blank.
pub proof fn lemma_entry_of_line(key: Seq<char>, value: Seq<char>)
    requires
        !key.contains(':'),
        trim(value).len() > 0,
    ensures
        entry_of(entry_line(key, value)) == Some((trim(key), trim(value))),
{
    let line = entry_line(key, value);
    assert forall|i: int| 0 <= i < key.len() implies line[i] != ':' by {
        assert(line[i] == key[i]);
        assert(key.contains(key[i]));
    }
    assert(line[key.len() as int] == ':');
    lemma_position_unique(line, ':', key.len() as int);
    assert(line.take(key.len() as int) == key);
    assert(line.skip(key.len() as int + 1) == seq![' '] + value);
    lemma_trim_ignores_leading_space(' ', value);
}

/// A document with the one front-matter line `key: value` has the mapping
/// that gives `key` the value `value` and nothing else, and its body is
/// the text behind the second delimiter line. `key` and `value` are free
/// of line feeds and of white space at their ends, `key` holds no `:`,
/// `value` is not empty, and the line is no delimiter line; the body is one
/// that splitting into lines and joining again leaves as it is.
pub proof fn lemma_single_entry_document(key: Seq<char>, value: Seq<char>, body: Seq<char>)
    requires
        !key.contains('\n'),
        !key.contains(':'),
        trim(key) == key,
        !value.contains('\n'),
        trim(value) == value,
        value.len() > 0,
        !is_delimiter(entry_line(key, value)),
        join_lines(lines(body)) == body,
    ensures
        document_parts(document_text(seq![entry_line(key, value)], body)) is Some,
        front_matter_of(
            document_parts(document_text(seq![entry_line(key, value)], body))->0.front_matter,
        ) == Map::<Seq<char>, Seq<char>>::empty().insert(key, value),
        join_lines(document_parts(document_text(seq![entry_line(key, value)], body))->0.body)
            == body,
{
    let line = entry_line(key, value);
    lemma_trimmed_has_no_spaces_around(value);
    assert(!line.contains('\n')) by {
        if line.contains('\n') {
            let i = choose|i: int| 0 <= i < line.len() && line[i] == '\n';
            if i < key.len() {
                assert(key.contains(key[i]));
            } else if i >= key.len() + 2 {
                assert(value.contains(value[i - key.len() - 2]));
            }
        }
    }
    assert(line.last() == value.last());
    let front = seq![line];
    lemma_document_parts(front, body);
    lemma_entry_of_line(key, value);
    assert(front.drop_last() == Seq::<Seq<char>>::empty());
    assert(front_matter_of(front.drop_last()) == Map::<Seq<char>, Seq<char>>::empty());
}

/// A document whose two delimiter lines follow each other has the empty
/// mapping, and its body is the text behind the second delimiter line,
/// line by line: that text itself, where splitting it into lines and
/// joining them again leaves it as it is.
pub proof fn lemma_blank_front_matter(body: Seq<char>)
    ensures
        document_parts(document_text(Seq::empty(), body)) is Some,
        front_matter_of(document_parts(document_text(Seq::empty(), body))->0.front_matter)
            == Map::<Seq<char>, Seq<char>>::empty(),
        join_lines(document_parts(document_text(Seq::empty(), body))->0.body) == join_lines(
            lines(body),
        ),
{
    lemma_document_parts(Seq::empty(), body);
}

/// A front-matter line whose value is blank changes nothing: the mapping
/// of the lines with it is the mapping of the lines without it.
pub proof fn lemma_blank_value_is_left_out(ls: Seq<Seq<char>>, key: Seq<char>, blank: Seq<char>)
    requires
        !key.contains(':'),
        trim(blank).len() == 0,
    ensures
        entry_of(key + seq![':'] + blank) is None,
        front_matter_of(ls.push(key + seq![':'] + blank)) == front_matter_of(ls),
        front_matter_pairs(ls.push(key + seq![':'] + blank)) == front_matter_pairs(ls),
{
    let line = key + seq![':'] + blank;
    assert forall|i: int| 0 <= i < key.len() implies line[i] != ':' by {
        assert(line[i] == key[i]);
        assert(key.contains(key[i]));
    }
    assert(line[key.len() as int] == ':');
    lemma_position_unique(line, ':', key.len() as int);
    assert(line.skip(key.len() as int + 1) == blank);
    let all = ls.push(line);
    assert(all.drop_last() == ls);
}

/// The entries that front-matter lines stand for hold each key once, and
/// they spell out the mapping that the lines stand for.
pub proof fn lemma_front_matter_pairs(ls: Seq<Seq<char>>)
    ensures
        distinct_keys(front_matter_pairs(ls)),
        pairs_map(front_matter_pairs(ls)) == front_matter_of(ls),
    decreases ls.len(),
{
    if ls.len() > 0 {
        lemma_front_matter_pairs(ls.drop_last());
        match entry_of(ls.last()) {
            Some(entry) => {
                lemma_insert_pair(front_matter_pairs(ls.drop_last()), entry.0, entry.1);
            },
            None => {},
        }
    }
}

/// Whether the line `line` states a value for `key`.
pub open spec fn states(line: Seq<char>, key: Seq<char>) -> bool {
    entry_of(line) matches Some(entry) && entry.0 == key
}

/// A key has a value in the mapping exactly when some line states one for
/// it.
pub proof fn lemma_front_matter_keys(ls: Seq<Seq<char>>, key: Seq<char>)
    ensures
        front_matter_of(ls).contains_key(key) <==> exists|i: int|
            0 <= i < ls.len() && states(#[trigger] ls[i], key),
    decreases ls.len(),
{
    if ls.len() > 0 {
        let front = ls.drop_last();
        lemma_front_matter_keys(front, key);
        if front_matter_of(ls).contains_key(key) {
            if states(ls.last(), key) {
                assert(states(ls[ls.len() - 1], key));
            } else {
                assert(front_matter_of(front).contains_key(key));
                let i = choose|i: int| 0 <= i < front.len() && states(#[trigger] front[i], key);
                assert(states(ls[i], key));
            }
        }
        if exists|i: int| 0 <= i < ls.len() && states(#[trigger] ls[i], key) {
            let i = choose|i: int| 0 <= i < ls.len() && states(#[trigger] ls[i], key);
            if i < ls.len() - 1 {
                assert(states(front[i], key));
            }
        }
    }
}

/// Of the lines that state a value for one key the last one decides: the
/// mapping gives `key` the value `value` of the line at `at`, where no
/// line behind it states a value for `key`.
pub proof fn lemma_last_line_decides(
    ls: Seq<Seq<char>>,
    at: int,
    key: Seq<char>,
    value: Seq<char>,
)
    requires
        0 <= at < ls.len(),
        entry_of(ls[at]) == Some((key, value)),
        forall|j: int| at < j < ls.len() ==> !states(#[trigger] ls[j], key),
    ensures
        front_matter_of(ls).contains_key(key),
        front_matter_of(ls)[key] == value,
    decreases ls.len(),
{
    let front = ls.drop_last();
    if at < ls.len() - 1 {
        assert(front[at] == ls[at]);
        assert forall|j: int| at < j < front.len() implies !states(#[trigger] front[j], key) by {
            assert(front[j] == ls[j]);
        }
        lemma_last_line_decides(front, at, key, value);
        assert(!states(ls[ls.len() - 1], key));
    }
}

/// Whether `line` begins with the front-matter marker.
pub fn is_delimiter_line(line: &str) -> (b: bool)
    ensures
        b == is_delimiter(line@),
{
    let cs = chars_of(line);
    let mut marker: Vec<char> = Vec::new();
    marker.push('-');
    marker.push('-');
    marker.push('-');
    assert(marker@ == delimiter());
    assert(cs@.subrange(0, cs.len() as int) == line@);
    has_prefix(&cs, 0, cs.len(), &marker)
}

/// The entry that a front-matter line stands for, if it stands for one.
pub fn parse_entry(line: &str) -> (r: Option<(String, String)>)
    ensures
        match r {
            Some(entry) => entry_of(line@) == Some((entry.0@, entry.1@)),
            None => entry_of(line@) is None,
        },
{
    let cs = chars_of(line);
    let n = cs.len();
    assert(cs@.subrange(0, n as int) == line@);
    let colon = find_char(&cs, 0, n, ':');
    if colon >= n {
        return None;
    }
    assert(cs@.subrange(0, colon as int) == line@.take(colon as int));
    assert(cs@.subrange(colon + 1, n as int) == line@.skip(colon + 1));
    let value = trim_bounds(&cs, colon + 1, n);
    if value.0 == value.1 {
        return None;
    }
    let key = trim_bounds(&cs, 0, colon);
    Some((string_of(&cs, key.0, key.1), string_of(&cs, value.0, value.1)))
}

/// Reads front-matter lines as a mapping. Each line with a `:` and a value
/// that is not blank gives one entry; the other lines give none.
pub fn parse_front_matter(lines: Vec<String>) -> (r: Result<FrontMatter, ParseError>)
    ensures
        r is Ok,
        r->Ok_0@ == front_matter_of(texts_of(lines@)),
        r->Ok_0.pairs() == front_matter_pairs(texts_of(lines@)),
{
    let mut front_matter = FrontMatter::new();
    let n = lines.len();
    let ghost all = texts_of(lines@);
    let mut i: usize = 0;
    assert(all.take(0) == Seq::<Seq<char>>::empty());
    while i < n
        invariant
            n == lines.len(),
            i <= n,
            all == texts_of(lines@),
            front_matter@ == front_matter_of(all.take(i as int)),
            front_matter.pairs() == front_matter_pairs(all.take(i as int)),
        decreases n - i,
    {
        proof {
            let upto = all.take(i + 1);
            assert(upto.drop_last() == all.take(i as int));
            assert(upto.last() == lines@[i as int]@);
        }
        match parse_entry(lines[i].as_str()) {
            Some(entry) => {
                front_matter.insert(entry.0, entry.1);
            },
            None => {},
        }
        i = i + 1;
    }
    assert(all.take(n as int) == all);
    Ok(front_matter)
}

/// The lines `ls[from..]` with one line feed between each two neighbours.
fn join_from(ls: &Vec<String>, from: usize) -> (body: String)
    requires
        from <= ls.len(),
    ensures
        body@ == join_lines(texts_of(ls@).skip(from as int)),
{
    let n = ls.len();
    let ghost all = texts_of(ls@);
    let mut body = String::new();
    let mut i: usize = from;
    assert(all.subrange(from as int, from as int) == Seq::<Seq<char>>::empty());
    while i < n
        invariant
            n == ls.len(),
            from <= i <= n,
            all == texts_of(ls@),
            body@ == join_lines(all.subrange(from as int, i as int)),
        decreases n - i,
    {
        proof {
            let upto = all.subrange(from as int, i + 1);
            assert(upto.drop_last() == all.subrange(from as int, i as int));
            assert(upto.last() == ls@[i as int]@);
            reveal_strlit("\n");
            assert("\n"@ == seq!['\n']);
        }
        if i > from {
            body.append("\n");
        }
        body.append(ls[i].as_str());
        i = i + 1;
        assert(body@ == join_lines(all.subrange(from as int, i as int)));
    }
    assert(all.subrange(from as int, n as int) == all.skip(from as int));
    body
}

/// Parses a document: a delimiter line, the front matter, a second
/// delimiter line, the body. The path is kept as it is given.
pub fn parse_content(og_path: &str, content: &str) -> (r: Result<RawPost, ParseError>)
    ensures
        match r {
            Ok(post) => {
                &&& document_parts(content@) is Some
                &&& post.front_matter@ == front_matter_of(
                    document_parts(content@)->0.front_matter,
                )
                &&& post.front_matter.pairs() == front_matter_pairs(
                    document_parts(content@)->0.front_matter,
                )
                &&& post.body@ == join_lines(document_parts(content@)->0.body)
                &&& post.og_path@ == og_path@
                &&& post.kind == ContentKind::Markdown
            },
            Err(e) => document_parts(content@) is None && e == ParseError::NoFrontMatter,
        },
{
    let ls = split_lines(content);
    let n = ls.len();
    let ghost all = texts_of(ls@);
    if n == 0 {
        return Err(ParseError::NoFrontMatter);
    }
    assert(all[0] == ls@[0]@);
    if !is_delimiter_line(ls[0].as_str()) {
        return Err(ParseError::NoFrontMatter);
    }
    let ghost rest = all.skip(1);
    let mut front: Vec<String> = Vec::new();
    let mut i: usize = 1;
    proof {
        lemma_first_delimiter(rest);
        assert(texts_of(front@) == rest.take(0));
    }
    while i < n && !is_delimiter_line(ls[i].as_str())
        invariant
            n == ls.len(),
            1 <= i <= n,
            all == texts_of(ls@),
            rest == all.skip(1),
            texts_of(front@) == rest.take(i - 1),
            forall|j: int| 0 <= j < i - 1 ==> !is_delimiter(rest[j]),
        decreases n - i,
    {
        assert(rest[i - 1] == ls@[i as int]@);
        let ghost before = texts_of(front@);
        let line = ls[i].clone();
        front.push(line);
        assert(texts_of(front@) == before.push(rest[i - 1]));
        assert(rest.take(i as int) == rest.take(i - 1).push(rest[i - 1]));
        i = i + 1;
    }
    proof {
        if i < n {
            assert(rest[i - 1] == ls@[i as int]@);
        }
        assert(first_delimiter(rest) == i - 1) by {
            lemma_first_delimiter(rest);
            let f = first_delimiter(rest);
            if f < i - 1 {
                assert(!is_delimiter(rest[f]));
            } else if f > i - 1 {
                assert(is_delimiter(rest[i - 1]));
            }
        }
        if i < n {
            assert(rest.skip(i as int) == all.skip(i + 1));
        } else {
            assert(all.skip(n as int) == Seq::<Seq<char>>::empty());
        }
    }
    let body = if i < n {
        join_from(&ls, i + 1)
    } else {
        join_from(&ls, n)
    };
    Ok(
        RawPost {
            front_matter: parse_front_matter(front).unwrap(),
            body,
            og_path: String::from_str(og_path),
            kind: ContentKind::Markdown,
        },
    )
}

/// The first of the required fields, in the order title, description,
/// date, tags, for which `front_matter` has no value.
pub open spec fn first_missing(front_matter: Map<Seq<char>, Seq<char>>) -> Option<RequiredField> {
    if !front_matter.contains_key(RequiredField::Title.key()) {
        Some(RequiredField::Title)
    } else if !front_matter.contains_key(RequiredField::Description.key()) {
        Some(RequiredField::Description)
    } else if !front_matter.contains_key(RequiredField::Date.key()) {
        Some(RequiredField::Date)
    } else if !front_matter.contains_key(RequiredField::Tags.key()) {
        Some(RequiredField::Tags)
    } else {
        None
    }
}

/// The tags that the value of `tags` lists: its pieces between commas, each
/// trimmed, in order.
pub open spec fn tags_of(text: Seq<char>) -> Seq<Seq<char>> {
    split(text, ',').map_values(|piece: Seq<char>| trim(piece))
}

/// What is left of `front_matter` without the four required fields.
pub open spec fn extras_of(front_matter: Map<Seq<char>, Seq<char>>) -> Map<Seq<char>, Seq<char>> {
    front_matter.remove(RequiredField::Title.key()).remove(
        RequiredField::Description.key(),
    ).remove(RequiredField::Date.key()).remove(RequiredField::Tags.key())
}

/// The entries of `pairs` without those of the four required fields, in
/// their order.
pub open spec fn extras_pairs(pairs: Seq<Pair>) -> Seq<Pair> {
    remove_key(
        remove_key(
            remove_key(
                remove_key(pairs, RequiredField::Title.key()),
                RequiredField::Description.key(),
            ),
            RequiredField::Date.key(),
        ),
        RequiredField::Tags.key(),
    )
}

/// The metadata of a document whose front matter holds the entries
/// `front_matter`, where reading the value of `date` gave `date`. A missing
/// field is reported before a date that could not be read.
pub open spec fn metadata_of(front_matter: Seq<Pair>, date: Result<Date, Seq<char>>) -> Result<
    MetadataView,
    MetadataErrorView,
> {
    let mapping = pairs_map(front_matter);
    match first_missing(mapping) {
        Some(field) => Err(MetadataErrorView::MissingField(field)),
        None => match date {
            Err(reason) => Err(MetadataErrorView::InvalidDate(reason)),
            Ok(date) => Ok(
                MetadataView {
                    title: mapping[RequiredField::Title.key()],
                    description: mapping[RequiredField::Description.key()],
                    date,
                    tags: tags_of(mapping[RequiredField::Tags.key()]),
                    extras: extras_pairs(front_matter),
                },
            ),
        },
    }
}

/// What reading the value of `date` in `front_matter` gives.
pub open spec fn date_reading(front_matter: Seq<Pair>) -> Result<Date, Seq<char>> {
    date_reading_of(pairs_map(front_matter)[RequiredField::Date.key()])
}

/// A front matter with a title and without a description gives the error
/// that names the description, whatever else it holds and whatever its
/// date reads as.
pub proof fn lemma_missing_description(front_matter: Seq<Pair>, date: Result<Date, Seq<char>>)
    requires
        pairs_map(front_matter).contains_key(RequiredField::Title.key()),
        !pairs_map(front_matter).contains_key(RequiredField::Description.key()),
    ensures
        metadata_of(front_matter, date) == Err::<MetadataView, MetadataErrorView>(
            MetadataErrorView::MissingField(RequiredField::Description),
        ),
{
}

/// The outcome of an extraction, as it is seen in contracts.
pub open spec fn extraction_view(r: Result<Metadata, MetadataError>) -> Result<
    MetadataView,
    MetadataErrorView,
> {
    match r {
        Ok(metadata) => Ok(metadata@),
        Err(e) => Err(e@),
    }
}

/// The keys of the four required fields differ from each other.
pub proof fn lemma_required_keys_differ()
    ensures
        forall|a: RequiredField, b: RequiredField| a != b ==> a.key() != b.key(),
{
    reveal_strlit("title");
    reveal_strlit("description");
    reveal_strlit("date");
    reveal_strlit("tags");
    assert("date"@[0] != "tags"@[0]);
    assert forall|a: RequiredField, b: RequiredField| a != b implies a.key() != b.key() by {
        if a.key().len() == b.key().len() {
            assert(a.key()[0] != b.key()[0]);
        }
    }
}

/// The first of the required fields, in the order title, description,
/// date, tags, for which `front_matter` has no value.
pub fn missing_field(front_matter: &FrontMatter) -> (r: Option<RequiredField>)
    ensures
        r == first_missing(front_matter@),
{
    if !front_matter.contains_key("title") {
        Some(RequiredField::Title)
    } else if !front_matter.contains_key("description") {
        Some(RequiredField::Description)
    } else if !front_matter.contains_key("date") {
        Some(RequiredField::Date)
    } else if !front_matter.contains_key("tags") {
        Some(RequiredField::Tags)
    } else {
        None
    }
}

/// Makes the metadata of a document from its front matter and from what
/// reading its date gave. The four required fields are looked up in the
/// order title, description, date, tags, and the first one that is missing
/// is the error; after that an unreadable date is. What is left of the
/// front matter becomes the extras.
pub fn metadata_with_date(front_matter: FrontMatter, date: Result<Date, String>) -> (r: Result<
    Metadata,
    MetadataError,
>)
    ensures
        extraction_view(r) == metadata_of(front_matter.pairs(), date_outcome(date)),
        r is Ok ==> r->Ok_0.extras@ == extras_of(front_matter@),
{
    proof {
        lemma_required_keys_differ();
    }
    let mut extras = front_matter;
    let title = match extras.remove("title") {
        Some(title) => title,
        None => {
            return Err(MetadataError::MissingField(RequiredField::Title));
        },
    };
    let description = match extras.remove("description") {
        Some(description) => description,
        None => {
            return Err(MetadataError::MissingField(RequiredField::Description));
        },
    };
    if extras.remove("date").is_none() {
        return Err(MetadataError::MissingField(RequiredField::Date));
    }
    let tags_text = match extras.remove("tags") {
        Some(tags_text) => tags_text,
        None => {
            return Err(MetadataError::MissingField(RequiredField::Tags));
        },
    };
    let date = match date {
        Ok(date) => date,
        Err(reason) => {
            return Err(MetadataError::InvalidDate(reason));
        },
    };
    let tags = split_trimmed(tags_text.as_str(), ',');
    Ok(Metadata { title, description, date, tags, extras })
}

/// Makes the metadata of a document from its front matter. The value of
/// `date` is a date written as `YYYY-MM-DD`.
pub fn parse_metadata(front_matter: FrontMatter) -> (r: Result<Metadata, MetadataError>)
    ensures
        extraction_view(r) == metadata_of(front_matter.pairs(), date_reading(front_matter.pairs())),
        r is Ok ==> r->Ok_0.extras@ == extras_of(front_matter@),
{
    match missing_field(&front_matter) {
        Some(field) => Err(MetadataError::MissingField(field)),
        None => {
            let date = read_date(front_matter.get("date").unwrap().as_str());
            metadata_with_date(front_matter, date)
        },
    }
}

/// The settings that the lines of `text` state, each line read as a
/// front-matter line: the values of `title` and `description`, or the
/// first of the two that is missing.
pub open spec fn site_config_of(text: Seq<char>) -> Result<(Seq<char>, Seq<char>), RequiredField> {
    let settings = front_matter_of(lines(text));
    if !settings.contains_key(RequiredField::Title.key()) {
        Err(RequiredField::Title)
    } else if !settings.contains_key(RequiredField::Description.key()) {
        Err(RequiredField::Description)
    } else {
        Ok((settings[RequiredField::Title.key()], settings[RequiredField::Description.key()]))
    }
}

/// Reads the site's settings from the text of its settings file, which
/// states `title` and `description`, each on a line of its own, as a front
/// matter does.
pub fn parse_site_config(text: &str) -> (r: Result<SiteConfig, MetadataError>)
    ensures
        match r {
            Ok(config) => site_config_of(text@) == Ok::<(Seq<char>, Seq<char>), RequiredField>(
                (config.title@, config.description@),
            ),
            Err(e) => site_config_of(text@) is Err && e@ == MetadataErrorView::MissingField(
                site_config_of(text@)->Err_0,
            ),
        },
{
    let mut settings = parse_front_matter(split_lines(text)).unwrap();
    proof {
        lemma_required_keys_differ();
    }
    let title = match settings.remove("title") {
        Some(title) => title,
        None => {
            return Err(MetadataError::MissingField(RequiredField::Title));
        },
    };
    match settings.remove("description") {
        Some(description) => Ok(SiteConfig { title, description }),
        None => Err(MetadataError::MissingField(RequiredField::Description)),
    }
}

} // verus!
