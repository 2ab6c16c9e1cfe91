use vstd::prelude::*;
use crate::errors::{Error, IncorrectFileType, ParseError};
use crate::Record;

verus! {

/// Where the scanner stands with respect to quoted spans.
///
/// `AfterQuote` is the state just after a quote character that closed a
/// quoted span: a second quote right there is an escaped literal quote,
/// anything else continues outside the span.
#[derive(Clone, Copy, Debug, PartialEq, Eq, Structural)]
pub enum QuoteState {
    Unquoted,
    Quoted,
    AfterQuote,
}

/// The scanner's state after a prefix of the input: the finished tokens,
/// the token being accumulated, and the quote state.
pub struct ScanState {
    pub tokens: Seq<Seq<char>>,
    pub current: Seq<char>,
    pub quote: QuoteState,
}

/// The scanner's state before any input: no token, an empty buffer, outside
/// any quoted span.
pub open spec fn initial_scan() -> ScanState {
    ScanState { tokens: Seq::empty(), current: Seq::empty(), quote: QuoteState::Unquoted }
}

/// One step of the tokenizer on character `c`.
///
/// A quote opens or closes a quoted span (it is kept in the token unless
/// `strip` is set; a doubled quote inside a span is kept once even then);
/// the delimiter outside a quoted span closes the token; a carriage return
/// is dropped; every other character is appended.
pub open spec fn scan_step(st: ScanState, c: char, delim: char, strip: bool) -> ScanState {
    if c == '"' {
        match st.quote {
            QuoteState::Unquoted => ScanState {
                tokens: st.tokens,
                current: if strip { st.current } else { st.current.push(c) },
                quote: QuoteState::Quoted,
            },
            QuoteState::Quoted => ScanState {
                tokens: st.tokens,
                current: if strip { st.current } else { st.current.push(c) },
                quote: QuoteState::AfterQuote,
            },
            QuoteState::AfterQuote => ScanState {
                tokens: st.tokens,
                current: st.current.push(c),
                quote: QuoteState::Quoted,
            },
        }
    } else if c == delim && st.quote != QuoteState::Quoted {
        ScanState { tokens: st.tokens.push(st.current), current: Seq::empty(), quote: QuoteState::Unquoted }
    } else if c == '\r' {
        st
    } else {
        ScanState {
            tokens: st.tokens,
            current: st.current.push(c),
            quote: if st.quote == QuoteState::AfterQuote { QuoteState::Unquoted } else { st.quote },
        }
    }
}

/// The scanner's state after reading all of `s`, starting from `st`.
pub open spec fn scan_from(st: ScanState, s: Seq<char>, delim: char, strip: bool) -> ScanState
    decreases s.len(),
{
    if s.len() == 0 {
        st
    } else {
        scan_step(scan_from(st, s.drop_last(), delim, strip), s.last(), delim, strip)
    }
}

/// The tokens of `s`: every token closed by a delimiter, then the final
/// buffer, which is always present (so an input of length zero gives one
/// empty token, and a trailing delimiter gives a trailing empty token).
pub open spec fn split_quoted(s: Seq<char>, delim: char, strip: bool) -> Seq<Seq<char>> {
    let st = scan_from(initial_scan(), s, delim, strip);
    st.tokens.push(st.current)
}

/// Relies on `String::push`: the character is appended at the end.
#[verifier::external_body]
fn push_char(s: &mut String, c: char)
    ensures
        final(s)@ == old(s)@.push(c),
{
    s.push(c);
}

/// Splits `raw_string` on `delimeter` outside quoted spans.
///
/// With `result_as_record` set, the quote characters that delimit spans are
/// removed (a doubled quote inside a span stands for one quote); without
/// it every quote is kept as it stands. Carriage returns are dropped.
pub fn parse_string_to_vec_ignore_quotes(raw_string: &str, delimeter: char, result_as_record: bool) -> (r: Vec<String>)
    ensures
        r.deep_view() == split_quoted(raw_string@, delimeter, result_as_record),
{
    broadcast use vstd::string::group_string_axioms;
    let mut tokens: Vec<String> = Vec::new();
    let mut current = String::new();
    let mut quote = QuoteState::Unquoted;
    let ghost s = raw_string@;
    for c in it: raw_string.chars()
        invariant
            it.seq() == s,
            tokens.deep_view() == scan_from(initial_scan(), s.take(it.index()), delimeter, result_as_record).tokens,
            current@ == scan_from(initial_scan(), s.take(it.index()), delimeter, result_as_record).current,
            quote == scan_from(initial_scan(), s.take(it.index()), delimeter, result_as_record).quote,
    {
        assert(s.take(it.index() + 1).drop_last() == s.take(it.index()));
        if c == '"' {
            match quote {
                QuoteState::Unquoted => {
                    if !result_as_record {
                        push_char(&mut current, c);
                    }
                    quote = QuoteState::Quoted;
                },
                QuoteState::Quoted => {
                    if !result_as_record {
                        push_char(&mut current, c);
                    }
                    quote = QuoteState::AfterQuote;
                },
                QuoteState::AfterQuote => {
                    push_char(&mut current, c);
                    quote = QuoteState::Quoted;
                },
            }
        } else if c == delimeter && quote != QuoteState::Quoted {
            let ghost prev = tokens.deep_view();
            tokens.push(current);
            assert(tokens.deep_view() == prev.push(current@));
            current = String::new();
            quote = QuoteState::Unquoted;
        } else if c == '\r' {
        } else {
            push_char(&mut current, c);
            if quote == QuoteState::AfterQuote {
                quote = QuoteState::Unquoted;
            }
        }
    }
    assert(s.take(s.len() as int) == s);
    let ghost prev = tokens.deep_view();
    tokens.push(current);
    assert(tokens.deep_view() == prev.push(current@));
    tokens
}

/// Text that the parser accepts: it holds a comma or a newline somewhere.
pub open spec fn csv_shaped(text: Seq<char>) -> bool {
    text.contains(',') || text.contains('\n')
}

/// The physical text of each record: `text` split on newlines outside quoted
/// spans, quotes kept. A newline that ends the text closes the last record
/// rather than opening an empty one.
pub open spec fn record_lines(text: Seq<char>) -> Seq<Seq<char>> {
    let lines = split_quoted(text, '\n', false);
    if text.len() > 0 && text.last() == '\n' && lines.len() > 1 && lines.last().len() == 0 {
        lines.drop_last()
    } else {
        lines
    }
}

/// The records of `text`: each record line split on commas outside quoted
/// spans, with the quotes removed.
pub open spec fn parse_records(text: Seq<char>) -> Seq<Seq<Seq<char>>> {
    record_lines(text).map_values(|line: Seq<char>| split_quoted(line, ',', true))
}

/// Whether `target` occurs in `s`.
fn contains_char(s: &str, target: char) -> (r: bool)
    ensures
        r == s@.contains(target),
{
    broadcast use vstd::string::group_string_axioms;
    for c in it: s.chars()
        invariant
            it.seq() == s@,
            forall|j: int| 0 <= j < it.index() ==> s@[j] != target,
    {
        if c == target {
            return true;
        }
    }
    false
}

/// Parses delimited text into records: lines are split on newlines outside
/// quoted spans, and each line on commas outside quoted spans.
///
/// Text that holds neither a comma nor a newline is refused.
pub fn raw_csv_to_records(raw: &str) -> (r: Result<Vec<Record>, Error>)
    ensures
        match r {
            Ok(records) => csv_shaped(raw@) && records.deep_view() == parse_records(raw@),
            Err(e) => !csv_shaped(raw@) && e is Parse,
        },
{
    if !contains_char(raw, ',') && !contains_char(raw, '\n') {
        return Err(Error::Parse(ParseError::new()));
    }
    let mut lines = parse_string_to_vec_ignore_quotes(raw, '\n', false);
    let ghost all_lines = lines.deep_view();
    let n = lines.len();
    let m = raw.unicode_len();
    if m > 0 && raw.get_char(m - 1) == '\n' && n > 1 && lines[n - 1].as_str().is_empty() {
        lines.pop();
        assert(lines.deep_view() == all_lines.drop_last());
    }
    let ghost kept = lines.deep_view();
    assert(kept == record_lines(raw@));
    let mut data: Vec<Record> = Vec::new();
    for i in 0..lines.len()
        invariant
            kept == lines.deep_view(),
            data.deep_view() == kept.take(i as int).map_values(|line: Seq<char>| split_quoted(line, ',', true)),
    {
        let record = parse_string_to_vec_ignore_quotes(lines[i].as_str(), ',', true);
        let ghost prev = data.deep_view();
        data.push(record);
        assert(data.deep_view() == prev.push(record.deep_view()));
        assert(kept.take(i + 1).map_values(|line: Seq<char>| split_quoted(line, ',', true))
            == kept.take(i as int).map_values(|line: Seq<char>| split_quoted(line, ',', true)).push(
            split_quoted(kept[i as int], ',', true),
        ));
    }
    assert(kept.take(kept.len() as int) == kept);
    Ok(data)
}


/// Whether a field must be wrapped in quotes to survive a parse: it holds
/// the delimiter, a quote or a newline.
pub open spec fn needs_quotes(field: Seq<char>, delim: char) -> bool {
    exists|i: int| 0 <= i < field.len() && (field[i] == delim || field[i] == '"' || field[i] == '\n')
}

/// `field` with every quote character doubled.
pub open spec fn escape_quotes(field: Seq<char>) -> Seq<char>
    decreases field.len(),
{
    if field.len() == 0 {
        Seq::empty()
    } else if field.last() == '"' {
        escape_quotes(field.drop_last()).push('"').push('"')
    } else {
        escape_quotes(field.drop_last()).push(field.last())
    }
}

/// How a field is written: as it stands, or quoted with its quotes doubled.
pub open spec fn encode_field(field: Seq<char>, delim: char) -> Seq<char> {
    if needs_quotes(field, delim) {
        seq!['"'] + escape_quotes(field) + seq!['"']
    } else {
        field
    }
}

/// The encoded fields of a record, joined by the delimiter.
pub open spec fn join_fields(record: Seq<Seq<char>>, delim: char) -> Seq<char>
    decreases record.len(),
{
    if record.len() == 0 {
        Seq::empty()
    } else if record.len() == 1 {
        encode_field(record[0], delim)
    } else {
        join_fields(record.drop_last(), delim).push(delim) + encode_field(record.last(), delim)
    }
}

/// Each record's line followed by a newline.
pub open spec fn record_block(records: Seq<Seq<Seq<char>>>, delim: char) -> Seq<char>
    decreases records.len(),
{
    if records.len() == 0 {
        Seq::empty()
    } else {
        record_block(records.drop_last(), delim) + join_fields(records.last(), delim).push('\n')
    }
}

/// The `sep=<delimiter>` line that announces a delimiter other than a comma.
pub open spec fn sep_directive(delim: char) -> Seq<char> {
    if delim == ',' {
        Seq::empty()
    } else {
        seq!['s', 'e', 'p', '=', delim, '\n']
    }
}

/// The text of `records`: the directive line where one is needed, then one
/// line per record, with the final newline removed.
pub open spec fn records_text(records: Seq<Seq<Seq<char>>>, delim: char) -> Seq<char> {
    let full = sep_directive(delim) + record_block(records, delim);
    if full.len() == 0 {
        full
    } else {
        full.drop_last()
    }
}

/// Whether `field` needs quotes when written with `delim`.
fn needs_quoting(field: &str, delim: char) -> (r: bool)
    ensures
        r == needs_quotes(field@, delim),
{
    broadcast use vstd::string::group_string_axioms;
    for c in it: field.chars()
        invariant
            it.seq() == field@,
            forall|j: int|
                0 <= j < it.index() ==> !(field@[j] == delim || field@[j] == '"' || field@[j] == '\n'),
    {
        if c == delim || c == '"' || c == '\n' {
            assert(field@[it.index()] == c);
            return true;
        }
    }
    false
}

/// Appends the encoded form of `field` to `out`.
fn push_field(out: &mut String, field: &str, delim: char)
    ensures
        final(out)@ == old(out)@ + encode_field(field@, delim),
{
    broadcast use vstd::string::group_string_axioms;
    let ghost s = field@;
    if needs_quoting(field, delim) {
        push_char(out, '"');
        let ghost start = out@;
        for c in it: field.chars()
            invariant
                it.seq() == s,
                out@ == start + escape_quotes(s.take(it.index())),
        {
            assert(s.take(it.index() + 1).drop_last() == s.take(it.index()));
            if c == '"' {
                push_char(out, '"');
            }
            push_char(out, c);
        }
        assert(s.take(s.len() as int) == s);
        push_char(out, '"');
    } else {
        let ghost start = out@;
        for c in it: field.chars()
            invariant
                it.seq() == s,
                out@ == start + s.take(it.index()),
        {
            push_char(out, c);
            assert(s.take(it.index() + 1) == s.take(it.index()).push(c));
        }
        assert(s.take(s.len() as int) == s);
    }
}

/// Writes `records` as delimited text with `c` between fields.
///
/// A field that holds the delimiter, a quote or a newline is wrapped in
/// quotes, its own quotes doubled. A delimiter other than a comma is
/// announced by a first line `sep=<c>`. Records are separated by newlines;
/// the text does not end with one.
pub fn records_to_string(records: &Vec<Record>, c: char) -> (r: String)
    ensures
        r@ == records_text(records.deep_view(), c),
{
    let ghost rs = records.deep_view();
    let mut out = String::new();
    let mut pending_newline = false;
    if c != ',' {
        push_char(&mut out, 's');
        push_char(&mut out, 'e');
        push_char(&mut out, 'p');
        push_char(&mut out, '=');
        push_char(&mut out, c);
        pending_newline = true;
    }
    assert(record_block(rs.take(0), c) == Seq::<char>::empty());
    for i in 0..records.len()
        invariant
            rs == records.deep_view(),
            pending_newline == ((sep_directive(c) + record_block(rs.take(i as int), c)).len() > 0),
            pending_newline ==> (sep_directive(c) + record_block(rs.take(i as int), c)).last() == '\n',
            out@ == records_text(rs.take(i as int), c),
    {
        let ghost full = sep_directive(c) + record_block(rs.take(i as int), c);
        if pending_newline {
            push_char(&mut out, '\n');
        }
        assert(out@ == full);
        let record = &records[i];
        let ghost rec = rs[i as int];
        assert(rec == record.deep_view());
        for j in 0..record.len()
            invariant
                rec == record.deep_view(),
                out@ == full + join_fields(rec.take(j as int), c),
        {
            if j > 0 {
                push_char(&mut out, c);
            }
            push_field(&mut out, record[j].as_str(), c);
            assert(rec.take(j + 1).drop_last() == rec.take(j as int));
        }
        assert(rec.take(rec.len() as int) == rec);
        assert(rs.take(i + 1).drop_last() == rs.take(i as int));
        pending_newline = true;
    }
    assert(rs.take(rs.len() as int) == rs);
    out
}


/// Whether a path names a CSV file: it ends with `.csv` (case-sensitive).
pub open spec fn has_csv_extension(path: Seq<char>) -> bool {
    path.len() >= 4 && path.subrange(path.len() - 4, path.len() as int) == seq!['.', 'c', 's', 'v']
}

/// Checks that `path` ends with the `.csv` extension.
pub fn path_validate(path: &str) -> (r: Result<(), Error>)
    ensures
        match r {
            Ok(()) => has_csv_extension(path@),
            Err(e) => !has_csv_extension(path@) && e is IncorrectFileType,
        },
{
    let n = path.unicode_len();
    if n >= 4 && path.get_char(n - 4) == '.' && path.get_char(n - 3) == 'c' && path.get_char(n - 2) == 's'
        && path.get_char(n - 1) == 'v' {
        assert(path@.subrange(n - 4, n as int) == seq!['.', 'c', 's', 'v']);
        Ok(())
    } else {
        proof {
            if has_csv_extension(path@) {
                let tail = path@.subrange(n - 4, n as int);
                assert(tail[0] == path@[n - 4]);
                assert(tail[1] == path@[n - 3]);
                assert(tail[2] == path@[n - 2]);
                assert(tail[3] == path@[n - 1]);
            }
        }
        Err(Error::IncorrectFileType(IncorrectFileType::new()))
    }
}

} // verus!
