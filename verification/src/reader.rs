//! Reading annotated query files.
//!
//! A file is read line by line. A line that starts with `--` is a comment;
//! a comment that starts with `name:`, `param:`, `nullable:` or
//! `not_null:` is an annotation of the statement that follows. Any other
//! line that is not blank starts a statement, which runs up to the first
//! line that ends with a semicolon.

use crate::error::{Error, ErrorKind, ErrorView};
use crate::queries::{
    declaration_views, nullability_views, param_override_views, NullabilityOverride,
    NullabilityOverrideView, ParamKey, ParamKeyView, ParamOverride, ParamOverrideView,
    QueryDeclaration, QueryDeclarationView, QueryModule, ResultShape,
};
use crate::text::{
    all_digits, decimal_digits, digits_value, find_char, find_from, lemma_find_from_bounds,
    parse_digits, push_digits, to_chars,
};
use vstd::prelude::*;

verus! {

/// White space within a line: a blank, a tab, a carriage return.
pub open spec fn is_space(c: char) -> bool {
    c == ' ' || c == '\t' || c == '\r'
}

/// The place of the first character from `from` up to `to` that is not
/// white space, or `to` where there is none.
pub open spec fn skip_space(text: Seq<char>, from: int, to: int) -> int
    decreases to - from,
{
    if from >= to || !is_space(text[from]) {
        from
    } else {
        skip_space(text, from + 1, to)
    }
}

/// The place behind the token that starts at `from`: that of the first
/// white space from `from` up to `to`, or `to` where there is none.
pub open spec fn token_end(text: Seq<char>, from: int, to: int) -> int
    decreases to - from,
{
    if from >= to || is_space(text[from]) {
        from
    } else {
        token_end(text, from + 1, to)
    }
}

/// The place behind the last character between `from` and `to` that is
/// not white space, or `from` where there is none.
pub open spec fn trimmed_end(text: Seq<char>, from: int, to: int) -> int
    decreases to - from,
{
    if to <= from || !is_space(text[to - 1]) {
        to
    } else {
        trimmed_end(text, from, to - 1)
    }
}

/// Whether `word` stands at `at` and ends at or before `to`.
pub open spec fn has_word(text: Seq<char>, at: int, to: int, word: Seq<char>) -> bool {
    at + word.len() <= to && text.subrange(at, at + word.len()) == word
}

/// Where the line that ends at `end` is followed by another, the start
/// of that one; the end of the text otherwise.
pub open spec fn next_line(text: Seq<char>, end: int) -> int {
    if end < text.len() {
        end + 1
    } else {
        text.len() as int
    }
}

/// What a line of a query file says.
pub enum LineView {
    Blank,
    Comment,
    Sql,
    Name { name: Option<Seq<char>>, shape: Option<ResultShape> },
    Param { key: ParamKeyView, target: Seq<char> },
    Nullability { column: Seq<char>, nullable: bool },
    Malformed,
}

/// The result shape that a marker stands for.
pub open spec fn shape_of(token: Seq<char>) -> Option<ResultShape> {
    if token == ":none"@ {
        Some(ResultShape::NoRows)
    } else if token == ":one"@ {
        Some(ResultShape::OneRow)
    } else if token == ":many"@ {
        Some(ResultShape::ManyRows)
    } else {
        None
    }
}

/// What stands behind `name:`: a name, a name and a marker, or a marker.
pub open spec fn name_line(text: Seq<char>, from: int, to: int) -> LineView {
    let first = skip_space(text, from, to);
    let first_end = token_end(text, first, to);
    let second = skip_space(text, first_end, to);
    let second_end = token_end(text, second, to);
    let rest = skip_space(text, second_end, to);
    if first >= to || rest < to {
        LineView::Malformed
    } else if text[first] == ':' {
        match shape_of(text.subrange(first, first_end)) {
            Some(shape) => if second < to {
                LineView::Malformed
            } else {
                LineView::Name { name: None, shape: Some(shape) }
            },
            None => LineView::Malformed,
        }
    } else if second >= to {
        LineView::Name { name: Some(text.subrange(first, first_end)), shape: None }
    } else {
        match shape_of(text.subrange(second, second_end)) {
            Some(shape) => LineView::Name {
                name: Some(text.subrange(first, first_end)),
                shape: Some(shape),
            },
            None => LineView::Malformed,
        }
    }
}

/// The key that a token stands for: `$` and a position from one on, or a name.
pub open spec fn key_of(token: Seq<char>) -> Option<ParamKeyView> {
    if token.len() > 0 && token[0] == '$' {
        let digits = token.skip(1);
        if digits.len() > 0 && all_digits(digits) && 1 <= digits_value(digits) <= i64::MAX
            && digits_value(digits) <= usize::MAX {
            Some(ParamKeyView::Position(digits_value(digits) as int))
        } else {
            None
        }
    } else {
        Some(ParamKeyView::Name(token))
    }
}

/// What stands behind `param:`: a key and a type.
pub open spec fn param_line(text: Seq<char>, from: int, to: int) -> LineView {
    let first = skip_space(text, from, to);
    let first_end = token_end(text, first, to);
    let second = skip_space(text, first_end, to);
    let second_end = token_end(text, second, to);
    let rest = skip_space(text, second_end, to);
    if first >= to || second >= to || rest < to {
        LineView::Malformed
    } else {
        match key_of(text.subrange(first, first_end)) {
            Some(key) => LineView::Param { key, target: text.subrange(second, second_end) },
            None => LineView::Malformed,
        }
    }
}

/// What stands behind `nullable:` or `not_null:`: the name of a column.
pub open spec fn column_line(text: Seq<char>, from: int, to: int, nullable: bool) -> LineView {
    let first = skip_space(text, from, to);
    let first_end = token_end(text, first, to);
    let rest = skip_space(text, first_end, to);
    if first >= to || rest < to {
        LineView::Malformed
    } else {
        LineView::Nullability { column: text.subrange(first, first_end), nullable }
    }
}

/// What the line from `from` up to `to` says.
pub open spec fn line_at(text: Seq<char>, from: int, to: int) -> LineView {
    let start = skip_space(text, from, to);
    if start >= to {
        LineView::Blank
    } else if !(start + 1 < to && text[start] == '-' && text[start + 1] == '-') {
        LineView::Sql
    } else {
        let word = skip_space(text, start + 2, to);
        if has_word(text, word, to, "name:"@) {
            name_line(text, word + "name:"@.len(), to)
        } else if has_word(text, word, to, "param:"@) {
            param_line(text, word + "param:"@.len(), to)
        } else if has_word(text, word, to, "nullable:"@) {
            column_line(text, word + "nullable:"@.len(), to, true)
        } else if has_word(text, word, to, "not_null:"@) {
            column_line(text, word + "not_null:"@.len(), to, false)
        } else {
            LineView::Comment
        }
    }
}

/// The end of the statement that starts at `pos`: the place behind the
/// semicolon of the first line, from the one at `pos` on, that ends with
/// one.
pub open spec fn closing(text: Seq<char>, pos: int) -> Option<int>
    decreases text.len() - pos,
{
    if pos < 0 || pos >= text.len() {
        None
    } else {
        let end = find_from(text, '\n', pos);
        let stop = trimmed_end(text, pos, end);
        if stop > pos && text[stop - 1] == ';' {
            Some(stop)
        } else {
            proof {
                lemma_find_from_bounds(text, '\n', pos);
            }
            closing(text, next_line(text, end))
        }
    }
}

/// The annotations that wait for their statement.
pub struct PendingView {
    pub named: bool,
    pub name: Option<Seq<char>>,
    pub shape: Option<ResultShape>,
    pub param_types: Seq<ParamOverrideView>,
    pub nullability: Seq<NullabilityOverrideView>,
}

impl PendingView {
    /// No annotations.
    pub open spec fn empty() -> PendingView {
        PendingView {
            named: false,
            name: None,
            shape: None,
            param_types: Seq::empty(),
            nullability: Seq::empty(),
        }
    }

    /// Whether any annotation waits.
    pub open spec fn any(self) -> bool {
        self.named || self.param_types.len() > 0 || self.nullability.len() > 0
    }

    /// The annotations with what `line` says added; nothing where `line`
    /// names a query that is named already.
    pub open spec fn noted(self, line: LineView) -> Option<PendingView> {
        match line {
            LineView::Name { name, shape } => if self.named {
                None
            } else {
                Some(PendingView { named: true, name, shape, ..self })
            },
            LineView::Param { key, target } => Some(
                PendingView {
                    param_types: self.param_types.push(ParamOverrideView { key, target }),
                    ..self
                },
            ),
            LineView::Nullability { column, nullable } => Some(
                PendingView {
                    nullability: self.nullability.push(
                        NullabilityOverrideView { column, nullable },
                    ),
                    ..self
                },
            ),
            _ => Some(self),
        }
    }

    /// The declaration of the statement `sql` under these annotations. A
    /// query without a marker returns any number of rows.
    pub open spec fn declaration(self, sql: Seq<char>) -> QueryDeclarationView {
        QueryDeclarationView {
            name: self.name,
            sql,
            shape: match self.shape {
                Some(shape) => shape,
                None => ResultShape::ManyRows,
            },
            param_types: self.param_types,
            nullability: self.nullability,
        }
    }
}

/// The error for the statement that is number `ordinal` in the file `file`.
pub open spec fn fault(file: Seq<char>, ordinal: int, detail: Seq<char>) -> ErrorView {
    ErrorView {
        kind: ErrorKind::Parse,
        subject: file + ", statement "@ + decimal_digits(ordinal as nat),
        detail,
    }
}

/// The declarations of the file `file` from `pos` on, behind those in
/// `done`, where `pending` holds the annotations read since the last
/// statement.
pub open spec fn parsed_from(
    file: Seq<char>,
    text: Seq<char>,
    pos: int,
    pending: PendingView,
    done: Seq<QueryDeclarationView>,
) -> Result<Seq<QueryDeclarationView>, ErrorView>
    decreases text.len() - pos,
{
    if pos < 0 || pos >= text.len() {
        if pending.any() {
            Err(fault(file, done.len() as int + 1, "annotations without a statement"@))
        } else {
            Ok(done)
        }
    } else {
        let end = find_from(text, '\n', pos);
        match line_at(text, pos, end) {
            LineView::Sql => match closing(text, pos) {
                None => Err(fault(file, done.len() as int + 1, "statement without a closing semicolon"@)),
                Some(stop) => {
                    proof {
                        lemma_closing(text, pos);
                        lemma_find_from_bounds(text, '\n', stop);
                    }
                    parsed_from(
                        file,
                        text,
                        next_line(text, find_from(text, '\n', stop)),
                        PendingView::empty(),
                        done.push(
                            pending.declaration(text.subrange(skip_space(text, pos, end), stop)),
                        ),
                    )
                },
            },
            LineView::Malformed => Err(fault(file, done.len() as int + 1, "malformed annotation"@)),
            line => match pending.noted(line) {
                None => Err(fault(file, done.len() as int + 1, "a query has one name"@)),
                Some(noted) => {
                    proof {
                        lemma_find_from_bounds(text, '\n', pos);
                    }
                    parsed_from(file, text, next_line(text, end), noted, done)
                },
            },
        }
    }
}

/// The declarations of a query file, or the first fault in it.
pub open spec fn parsed(file: Seq<char>, text: Seq<char>) -> Result<
    Seq<QueryDeclarationView>,
    ErrorView,
> {
    parsed_from(file, text, 0, PendingView::empty(), Seq::empty())
}

/// A statement ends behind its start and within the text.
pub proof fn lemma_closing(text: Seq<char>, pos: int)
    requires
        0 <= pos,
    ensures
        closing(text, pos) matches Some(stop) ==> pos < stop <= text.len() && text[stop - 1]
            == ';',
    decreases text.len() - pos,
{
    if pos < text.len() {
        let end = find_from(text, '\n', pos);
        lemma_find_from_bounds(text, '\n', pos);
        lemma_trimmed_end(text, pos, end);
        let stop = trimmed_end(text, pos, end);
        if !(stop > pos && text[stop - 1] == ';') {
            lemma_closing(text, next_line(text, end));
        }
    }
}

/// The search for a character that is not white space ends within its bounds.
pub proof fn lemma_skip_space(text: Seq<char>, from: int, to: int)
    requires
        from <= to,
    ensures
        from <= skip_space(text, from, to) <= to,
    decreases to - from,
{
    if from < to && is_space(text[from]) {
        lemma_skip_space(text, from + 1, to);
    }
}

/// A token ends within the bounds of the search for its end.
pub proof fn lemma_token_end(text: Seq<char>, from: int, to: int)
    requires
        from <= to,
    ensures
        from <= token_end(text, from, to) <= to,
    decreases to - from,
{
    if from < to && !is_space(text[from]) {
        lemma_token_end(text, from + 1, to);
    }
}

/// What is left of a line without its trailing white space ends within the line.
pub proof fn lemma_trimmed_end(text: Seq<char>, from: int, to: int)
    requires
        from <= to,
    ensures
        from <= trimmed_end(text, from, to) <= to,
    decreases to - from,
{
    if to > from && is_space(text[to - 1]) {
        lemma_trimmed_end(text, from, to - 1);
    }
}

fn space(c: char) -> (r: bool)
    ensures
        r == is_space(c),
{
    c == ' ' || c == '\t' || c == '\r'
}

fn skip(chars: &Vec<char>, from: usize, to: usize) -> (at: usize)
    requires
        from <= to <= chars.len(),
    ensures
        at == skip_space(chars@, from as int, to as int),
        from <= at <= to,
        at < to ==> !is_space(chars@[at as int]),
{
    let mut i = from;
    while i < to && space(chars[i])
        invariant
            from <= i <= to <= chars.len(),
            skip_space(chars@, from as int, to as int) == skip_space(chars@, i as int, to as int),
        decreases to - i,
    {
        i += 1;
    }
    i
}

fn token(chars: &Vec<char>, from: usize, to: usize) -> (at: usize)
    requires
        from <= to <= chars.len(),
    ensures
        at == token_end(chars@, from as int, to as int),
        from <= at <= to,
{
    let mut i = from;
    while i < to && !space(chars[i])
        invariant
            from <= i <= to <= chars.len(),
            token_end(chars@, from as int, to as int) == token_end(chars@, i as int, to as int),
        decreases to - i,
    {
        i += 1;
    }
    i
}

fn trim(chars: &Vec<char>, from: usize, to: usize) -> (at: usize)
    requires
        from <= to <= chars.len(),
    ensures
        at == trimmed_end(chars@, from as int, to as int),
        from <= at <= to,
{
    let mut i = to;
    while i > from && space(chars[i - 1])
        invariant
            from <= i <= to <= chars.len(),
            trimmed_end(chars@, from as int, to as int) == trimmed_end(
                chars@,
                from as int,
                i as int,
            ),
        decreases i,
    {
        i -= 1;
    }
    i
}

/// Where `word` stands at `at` and ends at or before `to`: the place behind it.
fn word_at(chars: &Vec<char>, at: usize, to: usize, word: &str) -> (after: Option<usize>)
    requires
        at <= to <= chars.len(),
    ensures
        match after {
            Some(after) => has_word(chars@, at as int, to as int, word@) && after == at
                + word@.len(),
            None => !has_word(chars@, at as int, to as int, word@),
        },
{
    let letters = to_chars(word);
    if letters.len() > to - at {
        return None;
    }
    let mut k: usize = 0;
    while k < letters.len()
        invariant
            0 <= k <= letters.len(),
            letters@ == word@,
            at + letters.len() <= to <= chars.len(),
            forall|j: int| 0 <= j < k ==> chars@[at + j] == letters@[j],
        decreases letters.len() - k,
    {
        if chars[at + k] != letters[k] {
            assert(chars@.subrange(at as int, at + word@.len())[k as int] != word@[k as int]);
            return None;
        }
        k += 1;
    }
    assert(chars@.subrange(at as int, at + word@.len()) =~= word@);
    Some(at + letters.len())
}

/// Whether the token from `from` up to `to` is `word`.
fn token_is(chars: &Vec<char>, from: usize, to: usize, word: &str) -> (same: bool)
    requires
        from <= to <= chars.len(),
    ensures
        same == (chars@.subrange(from as int, to as int) == word@),
{
    match word_at(chars, from, to, word) {
        Some(after) => {
            if after == to {
                true
            } else {
                assert(chars@.subrange(from as int, to as int).len() != word@.len());
                false
            }
        },
        None => {
            proof {
                if chars@.subrange(from as int, to as int) == word@ {
                    assert(chars@.subrange(from as int, from + word@.len()) =~= word@);
                }
            }
            false
        },
    }
}

fn marker(chars: &Vec<char>, from: usize, to: usize) -> (shape: Option<ResultShape>)
    requires
        from <= to <= chars.len(),
    ensures
        shape == shape_of(chars@.subrange(from as int, to as int)),
{
    if token_is(chars, from, to, ":none") {
        Some(ResultShape::NoRows)
    } else if token_is(chars, from, to, ":one") {
        Some(ResultShape::OneRow)
    } else if token_is(chars, from, to, ":many") {
        Some(ResultShape::ManyRows)
    } else {
        None
    }
}

/// A line of a query file.
enum Line {
    Blank,
    Comment,
    Sql,
    Name { name: Option<String>, shape: Option<ResultShape> },
    Param { key: ParamKey, target: String },
    Nullability { column: String, nullable: bool },
    Malformed,
}

impl View for Line {
    type V = LineView;

    closed spec fn view(&self) -> LineView {
        match *self {
            Line::Blank => LineView::Blank,
            Line::Comment => LineView::Comment,
            Line::Sql => LineView::Sql,
            Line::Name { name, shape } => LineView::Name {
                name: match name {
                    Some(name) => Some(name@),
                    None => None,
                },
                shape,
            },
            Line::Param { key, target } => LineView::Param { key: key@, target: target@ },
            Line::Nullability { column, nullable } => LineView::Nullability {
                column: column@,
                nullable,
            },
            Line::Malformed => LineView::Malformed,
        }
    }
}

fn cut(source: &str, from: usize, to: usize) -> (piece: String)
    requires
        from <= to <= source@.len(),
    ensures
        piece@ == source@.subrange(from as int, to as int),
{
    source.substring_char(from, to).to_owned()
}

fn read_name(source: &str, chars: &Vec<char>, from: usize, to: usize) -> (line: Line)
    requires
        chars@ == source@,
        from <= to <= chars.len(),
    ensures
        line@ == name_line(chars@, from as int, to as int),
{
    let first = skip(chars, from, to);
    let first_end = token(chars, first, to);
    let second = skip(chars, first_end, to);
    let second_end = token(chars, second, to);
    let rest = skip(chars, second_end, to);
    if first >= to || rest < to {
        Line::Malformed
    } else if chars[first] == ':' {
        match marker(chars, first, first_end) {
            Some(shape) => if second < to {
                Line::Malformed
            } else {
                Line::Name { name: None, shape: Some(shape) }
            },
            None => Line::Malformed,
        }
    } else if second >= to {
        Line::Name { name: Some(cut(source, first, first_end)), shape: None }
    } else {
        match marker(chars, second, second_end) {
            Some(shape) => Line::Name {
                name: Some(cut(source, first, first_end)),
                shape: Some(shape),
            },
            None => Line::Malformed,
        }
    }
}

fn read_key(source: &str, chars: &Vec<char>, from: usize, to: usize) -> (key: Option<ParamKey>)
    requires
        chars@ == source@,
        from < to <= chars.len(),
    ensures
        match key {
            Some(key) => key_of(chars@.subrange(from as int, to as int)) == Some(key@),
            None => key_of(chars@.subrange(from as int, to as int)) is None,
        },
{
    let ghost token = chars@.subrange(from as int, to as int);
    assert(token[0] == chars@[from as int]);
    if chars[from] == '$' {
        assert(token.skip(1) =~= chars@.subrange(from + 1, to as int));
        match parse_digits(chars, from + 1, to) {
            None => None,
            Some(value) => {
                if value >= 1 && value as u64 <= usize::MAX as u64 {
                    Some(ParamKey::Position(value as usize))
                } else {
                    None
                }
            },
        }
    } else {
        Some(ParamKey::Name(cut(source, from, to)))
    }
}

fn read_param(source: &str, chars: &Vec<char>, from: usize, to: usize) -> (line: Line)
    requires
        chars@ == source@,
        from <= to <= chars.len(),
    ensures
        line@ == param_line(chars@, from as int, to as int),
{
    let first = skip(chars, from, to);
    let first_end = token(chars, first, to);
    let second = skip(chars, first_end, to);
    let second_end = token(chars, second, to);
    let rest = skip(chars, second_end, to);
    if first >= to || second >= to || rest < to {
        Line::Malformed
    } else {
        proof {
            assert(first < first_end) by {
                lemma_token_end(chars@, first + 1, to as int);
            }
        }
        match read_key(source, chars, first, first_end) {
            Some(key) => Line::Param { key, target: cut(source, second, second_end) },
            None => Line::Malformed,
        }
    }
}

fn read_column(source: &str, chars: &Vec<char>, from: usize, to: usize, nullable: bool) -> (line:
    Line)
    requires
        chars@ == source@,
        from <= to <= chars.len(),
    ensures
        line@ == column_line(chars@, from as int, to as int, nullable),
{
    let first = skip(chars, from, to);
    let first_end = token(chars, first, to);
    let rest = skip(chars, first_end, to);
    if first >= to || rest < to {
        Line::Malformed
    } else {
        Line::Nullability { column: cut(source, first, first_end), nullable }
    }
}

fn read_line(source: &str, chars: &Vec<char>, from: usize, to: usize) -> (line: Line)
    requires
        chars@ == source@,
        from <= to <= chars.len(),
    ensures
        line@ == line_at(chars@, from as int, to as int),
{
    let start = skip(chars, from, to);
    if start >= to {
        return Line::Blank;
    }
    if !(start + 1 < to && chars[start] == '-' && chars[start + 1] == '-') {
        return Line::Sql;
    }
    let word = skip(chars, start + 2, to);
    if let Some(after) = word_at(chars, word, to, "name:") {
        return read_name(source, chars, after, to);
    }
    if let Some(after) = word_at(chars, word, to, "param:") {
        return read_param(source, chars, after, to);
    }
    if let Some(after) = word_at(chars, word, to, "nullable:") {
        return read_column(source, chars, after, to, true);
    }
    if let Some(after) = word_at(chars, word, to, "not_null:") {
        return read_column(source, chars, after, to, false);
    }
    Line::Comment
}

fn line_after(chars: &Vec<char>, end: usize) -> (next: usize)
    requires
        end <= chars.len(),
    ensures
        next == next_line(chars@, end as int),
        next <= chars.len(),
        end < chars.len() ==> next > end,
{
    if end < chars.len() {
        end + 1
    } else {
        chars.len()
    }
}

fn find_closing(chars: &Vec<char>, pos: usize) -> (stop: Option<usize>)
    requires
        pos <= chars.len(),
    ensures
        match stop {
            Some(stop) => closing(chars@, pos as int) == Some(stop as int) && pos < stop
                <= chars.len(),
            None => closing(chars@, pos as int) is None,
        },
{
    let mut at = pos;
    while at < chars.len()
        invariant
            pos <= at <= chars.len(),
            closing(chars@, pos as int) == closing(chars@, at as int),
        decreases chars.len() - at,
    {
        let end = find_char(chars, '\n', at);
        let stop = trim(chars, at, end);
        if stop > at && chars[stop - 1] == ';' {
            return Some(stop);
        }
        at = line_after(chars, end);
    }
    None
}

/// The annotations that wait for their statement.
struct Pending {
    named: bool,
    name: Option<String>,
    shape: Option<ResultShape>,
    param_types: Vec<ParamOverride>,
    nullability: Vec<NullabilityOverride>,
}

impl View for Pending {
    type V = PendingView;

    closed spec fn view(&self) -> PendingView {
        PendingView {
            named: self.named,
            name: match self.name {
                Some(name) => Some(name@),
                None => None,
            },
            shape: self.shape,
            param_types: param_override_views(self.param_types@),
            nullability: nullability_views(self.nullability@),
        }
    }
}

impl Pending {
    fn new() -> (pending: Pending)
        ensures
            pending@ == PendingView::empty(),
    {
        let pending = Pending {
            named: false,
            name: None,
            shape: None,
            param_types: Vec::new(),
            nullability: Vec::new(),
        };
        assert(pending@.param_types =~= Seq::empty());
        assert(pending@.nullability =~= Seq::empty());
        pending
    }

    fn any(&self) -> (any: bool)
        ensures
            any == self@.any(),
    {
        self.named || self.param_types.len() > 0 || self.nullability.len() > 0
    }

    fn note(self, line: Line) -> (noted: Option<Pending>)
        ensures
            match noted {
                Some(noted) => self@.noted(line@) == Some(noted@),
                None => self@.noted(line@) is None,
            },
    {
        let mut pending = self;
        match line {
            Line::Name { name, shape } => {
                if pending.named {
                    return None;
                }
                pending.named = true;
                pending.name = name;
                pending.shape = shape;
            },
            Line::Param { key, target } => {
                let ghost before = pending@.param_types;
                let entry = ParamOverride { key, target };
                pending.param_types.push(entry);
                assert(pending@.param_types =~= before.push(entry@));
            },
            Line::Nullability { column, nullable } => {
                let ghost before = pending@.nullability;
                let entry = NullabilityOverride { column, nullable };
                pending.nullability.push(entry);
                assert(pending@.nullability =~= before.push(entry@));
            },
            _ => {},
        }
        Some(pending)
    }

    fn declare(self, sql: String) -> (declaration: QueryDeclaration)
        ensures
            declaration@ == self@.declaration(sql@),
    {
        QueryDeclaration {
            name: self.name,
            sql,
            shape: match self.shape {
                Some(shape) => shape,
                None => ResultShape::ManyRows,
            },
            param_types: self.param_types,
            nullability: self.nullability,
        }
    }
}

/// The error for the statement behind the first `count` ones.
fn fault_at(file: &str, count: usize, detail: &str) -> (error: Error)
    ensures
        error@ == fault(file@, count + 1, detail@),
{
    let mut subject = file.to_owned();
    subject.append(", statement ");
    push_digits(&mut subject, count as u128 + 1);
    Error { kind: ErrorKind::Parse, subject, detail: detail.to_owned() }
}

/// Reads the text of a query file into the module `name`: one declaration
/// for each statement, in the order of the file, each with the
/// annotations that stand before it.
///
/// Fails on an annotation that is malformed, on a second name for one
/// statement, on annotations that no statement follows and on a statement
/// that no semicolon closes; the error names the module and tells which
/// statement of the file it is.
pub fn parse_module(name: &str, text: &str) -> (module: Result<QueryModule, Error>)
    ensures
        match module {
            Ok(module) => module@.name == name@ && parsed(name@, text@) == Ok::<
                Seq<QueryDeclarationView>,
                ErrorView,
            >(module@.queries),
            Err(error) => parsed(name@, text@) == Err::<Seq<QueryDeclarationView>, ErrorView>(
                error@,
            ),
        },
{
    let chars = to_chars(text);
    let mut pending = Pending::new();
    let mut done: Vec<QueryDeclaration> = Vec::new();
    let mut pos: usize = 0;
    assert(declaration_views(done@) =~= Seq::empty());
    while pos < chars.len()
        invariant
            0 <= pos <= chars.len(),
            chars@ == text@,
            parsed(name@, text@) == parsed_from(
                name@,
                text@,
                pos as int,
                pending@,
                declaration_views(done@),
            ),
        decreases chars.len() - pos,
    {
        let ghost before = declaration_views(done@);
        let end = find_char(&chars, '\n', pos);
        match read_line(text, &chars, pos, end) {
            Line::Sql => {
                match find_closing(&chars, pos) {
                    None => {
                        return Err(
                            fault_at(name, done.len(), "statement without a closing semicolon"),
                        );
                    },
                    Some(stop) => {
                        let start = skip(&chars, pos, end);
                        proof {
                            lemma_closing_line(chars@, pos as int);
                        }
                        let declaration = pending.declare(cut(text, start, stop));
                        done.push(declaration);
                        assert(declaration_views(done@) =~= before.push(declaration@));
                        pending = Pending::new();
                        let closed = find_char(&chars, '\n', stop);
                        pos = line_after(&chars, closed);
                    },
                }
            },
            Line::Malformed => {
                return Err(fault_at(name, done.len(), "malformed annotation"));
            },
            line => {
                match pending.note(line) {
                    None => {
                        return Err(fault_at(name, done.len(), "a query has one name"));
                    },
                    Some(noted) => {
                        pending = noted;
                    },
                }
                pos = line_after(&chars, end);
            },
        }
    }
    if pending.any() {
        return Err(fault_at(name, done.len(), "annotations without a statement"));
    }
    Ok(QueryModule { name: name.to_owned(), queries: done })
}

/// The statement that starts at `pos` ends behind the first character
/// of its first line that is not white space.
proof fn lemma_closing_line(text: Seq<char>, pos: int)
    requires
        0 <= pos < text.len(),
        closing(text, pos) is Some,
    ensures
        skip_space(text, pos, find_from(text, '\n', pos)) <= closing(text, pos)->0,
{
    let end = find_from(text, '\n', pos);
    lemma_find_from_bounds(text, '\n', pos);
    lemma_skip_space(text, pos, end);
    lemma_trimmed_end(text, pos, end);
    let stop = trimmed_end(text, pos, end);
    if stop > pos && text[stop - 1] == ';' {
        lemma_skip_before_trim(text, pos, end);
    } else {
        lemma_closing(text, next_line(text, end));
    }
}

/// Leading white space ends before trailing white space starts, unless
/// the line is blank.
proof fn lemma_skip_before_trim(text: Seq<char>, from: int, to: int)
    requires
        from <= to,
        trimmed_end(text, from, to) > from,
    ensures
        skip_space(text, from, to) < trimmed_end(text, from, to),
    decreases to - from,
{
    lemma_trimmed_end(text, from, to);
    if is_space(text[to - 1]) {
        lemma_trimmed_end(text, from, to - 1);
        lemma_skip_before_trim(text, from, to - 1);
        lemma_skip_stops(text, from, to - 1, to);
    } else {
        lemma_skip_space(text, from, to);
        lemma_skip_not_space(text, from, to);
    }
}

/// The search for a character that is not white space ends at one, or
/// at the end.
proof fn lemma_skip_not_space(text: Seq<char>, from: int, to: int)
    requires
        from <= to,
    ensures
        skip_space(text, from, to) < to ==> !is_space(text[skip_space(text, from, to)]),
        forall|k: int| from <= k < skip_space(text, from, to) ==> is_space(text[k]),
    decreases to - from,
{
    if from < to && is_space(text[from]) {
        lemma_skip_not_space(text, from + 1, to);
    }
}

/// A search that ends before `to` ends at the same place for a later end.
proof fn lemma_skip_stops(text: Seq<char>, from: int, to: int, later: int)
    requires
        from <= to <= later,
        skip_space(text, from, to) < to,
    ensures
        skip_space(text, from, later) == skip_space(text, from, to),
    decreases to - from,
{
    if from < to && is_space(text[from]) {
        lemma_skip_stops(text, from + 1, to, later);
    }
}

} // verus!
