use vstd::prelude::*;

use crate::utils::{
    csv_shaped, encode_field, escape_quotes, initial_scan, join_fields, needs_quotes, parse_records,
    record_block, record_lines, records_text, scan_from, scan_step, sep_directive, split_quoted,
    QuoteState, ScanState,
};

verus! {

/// Whether `field` is free of carriage returns, which the parser always drops.
pub open spec fn free_of_cr(field: Seq<char>) -> bool {
    !field.contains('\r')
}

/// Whether every field of every record is free of carriage returns.
pub open spec fn all_free_of_cr(records: Seq<Seq<Seq<char>>>) -> bool {
    forall|i: int, j: int|
        0 <= i < records.len() && 0 <= j < records[i].len() ==> free_of_cr(#[trigger] records[i][j])
}

/// The text of each record's line, before the lines are joined.
pub open spec fn record_texts(records: Seq<Seq<Seq<char>>>) -> Seq<Seq<char>> {
    records.map_values(|r: Seq<Seq<char>>| join_fields(r, ','))
}

proof fn lemma_scan_push(st: ScanState, s: Seq<char>, c: char, delim: char, strip: bool)
    ensures
        scan_from(st, s.push(c), delim, strip) == scan_step(scan_from(st, s, delim, strip), c, delim, strip),
{
    assert(s.push(c).drop_last() =~= s);
}

proof fn lemma_scan_concat(st: ScanState, a: Seq<char>, b: Seq<char>, delim: char, strip: bool)
    ensures
        scan_from(st, a + b, delim, strip) == scan_from(scan_from(st, a, delim, strip), b, delim, strip),
    decreases b.len(),
{
    if b.len() == 0 {
        assert(a + b =~= a);
    } else {
        lemma_scan_concat(st, a, b.drop_last(), delim, strip);
        assert((a + b).drop_last() =~= a + b.drop_last());
    }
}

proof fn lemma_scan_one(st: ScanState, c: char, delim: char, strip: bool)
    ensures
        scan_from(st, seq![c], delim, strip) == scan_step(st, c, delim, strip),
{
    lemma_scan_push(st, Seq::empty(), c, delim, strip);
    assert(Seq::<char>::empty().push(c) =~= seq![c]);
}

/// Text with no quote, no delimiter and no carriage return is appended as it
/// stands, outside any quoted span.
proof fn lemma_scan_plain(st: ScanState, s: Seq<char>, delim: char, strip: bool)
    requires
        st.quote != QuoteState::Quoted,
        forall|k: int| 0 <= k < s.len() ==> s[k] != '"' && s[k] != delim && s[k] != '\r',
    ensures
        scan_from(st, s, delim, strip).tokens == st.tokens,
        scan_from(st, s, delim, strip).current == st.current + s,
        scan_from(st, s, delim, strip).quote != QuoteState::Quoted,
    decreases s.len(),
{
    if s.len() == 0 {
        assert(st.current + s =~= st.current);
    } else {
        let prefix = s.drop_last();
        lemma_scan_plain(st, prefix, delim, strip);
        lemma_scan_push(st, prefix, s.last(), delim, strip);
        assert(prefix.push(s.last()) =~= s);
        assert((st.current + prefix).push(s.last()) =~= st.current + s);
    }
}

/// Inside a quoted span, the escaped field is kept as it stands when quotes
/// are kept, and the span stays open.
proof fn lemma_scan_escaped_kept(st: ScanState, f: Seq<char>)
    requires
        st.quote == QuoteState::Quoted,
        free_of_cr(f),
    ensures
        scan_from(st, escape_quotes(f), '\n', false).tokens == st.tokens,
        scan_from(st, escape_quotes(f), '\n', false).current == st.current + escape_quotes(f),
        scan_from(st, escape_quotes(f), '\n', false).quote == QuoteState::Quoted,
    decreases f.len(),
{
    if f.len() == 0 {
        assert(st.current + escape_quotes(f) =~= st.current);
    } else {
        let prefix = f.drop_last();
        assert(!prefix.contains('\r')) by {
            if prefix.contains('\r') {
                let k = choose|k: int| 0 <= k < prefix.len() && prefix[k] == '\r';
                assert(f[k] == '\r');
            }
        }
        assert(f.last() != '\r') by {
            assert(f[f.len() - 1] == f.last());
        }
        lemma_scan_escaped_kept(st, prefix);
        let e = escape_quotes(prefix);
        if f.last() == '"' {
            lemma_scan_push(st, e, '"', '\n', false);
            lemma_scan_push(st, e.push('"'), '"', '\n', false);
            assert((st.current + e).push('"').push('"') =~= st.current + e.push('"').push('"'));
        } else {
            lemma_scan_push(st, e, f.last(), '\n', false);
            assert((st.current + e).push(f.last()) =~= st.current + e.push(f.last()));
        }
    }
}

/// Inside a quoted span, the escaped field comes back unescaped when quotes
/// are stripped, and the span stays open.
proof fn lemma_scan_escaped_stripped(st: ScanState, f: Seq<char>)
    requires
        st.quote == QuoteState::Quoted,
        free_of_cr(f),
    ensures
        scan_from(st, escape_quotes(f), ',', true).tokens == st.tokens,
        scan_from(st, escape_quotes(f), ',', true).current == st.current + f,
        scan_from(st, escape_quotes(f), ',', true).quote == QuoteState::Quoted,
    decreases f.len(),
{
    if f.len() == 0 {
        assert(st.current + f =~= st.current);
    } else {
        let prefix = f.drop_last();
        assert(!prefix.contains('\r')) by {
            if prefix.contains('\r') {
                let k = choose|k: int| 0 <= k < prefix.len() && prefix[k] == '\r';
                assert(f[k] == '\r');
            }
        }
        assert(f.last() != '\r') by {
            assert(f[f.len() - 1] == f.last());
        }
        lemma_scan_escaped_stripped(st, prefix);
        let e = escape_quotes(prefix);
        if f.last() == '"' {
            lemma_scan_push(st, e, '"', ',', true);
            lemma_scan_push(st, e.push('"'), '"', ',', true);
        } else {
            lemma_scan_push(st, e, f.last(), ',', true);
        }
        assert((st.current + prefix).push(f.last()) =~= st.current + f);
    }
}

proof fn lemma_plain_field_chars(f: Seq<char>, delim: char)
    requires
        !needs_quotes(f, delim),
        free_of_cr(f),
    ensures
        forall|k: int| 0 <= k < f.len() ==> f[k] != '"' && f[k] != delim && f[k] != '\r' && f[k] != '\n',
{
    assert forall|k: int| 0 <= k < f.len() implies f[k] != '"' && f[k] != delim && f[k] != '\r' && f[k] != '\n' by {
        if f[k] == '\r' {
            assert(f.contains('\r'));
        }
    }
}

/// An encoded field, read with quotes kept and newline as delimiter, is
/// appended as it stands and leaves no quoted span open.
proof fn lemma_scan_field_kept(st: ScanState, f: Seq<char>)
    requires
        st.quote != QuoteState::Quoted,
        free_of_cr(f),
    ensures
        scan_from(st, encode_field(f, ','), '\n', false).tokens == st.tokens,
        scan_from(st, encode_field(f, ','), '\n', false).current == st.current + encode_field(f, ','),
        scan_from(st, encode_field(f, ','), '\n', false).quote != QuoteState::Quoted,
{
    if needs_quotes(f, ',') {
        let e = escape_quotes(f);
        let opened = scan_step(st, '"', '\n', false);
        lemma_scan_one(st, '"', '\n', false);
        lemma_scan_escaped_kept(opened, f);
        lemma_scan_concat(st, seq!['"'], e, '\n', false);
        assert(seq!['"'] + e + seq!['"'] =~= (seq!['"'] + e).push('"'));
        lemma_scan_push(st, seq!['"'] + e, '"', '\n', false);
        assert((st.current.push('"') + e).push('"') =~= st.current + (seq!['"'] + e + seq!['"']));
    } else {
        lemma_plain_field_chars(f, ',');
        lemma_scan_plain(st, f, '\n', false);
    }
}

/// An encoded field, read right after a delimiter with quotes stripped and
/// comma as delimiter, gives back the field and leaves no quoted span open.
proof fn lemma_scan_field_stripped(st: ScanState, f: Seq<char>)
    requires
        st.quote == QuoteState::Unquoted,
        free_of_cr(f),
    ensures
        scan_from(st, encode_field(f, ','), ',', true).tokens == st.tokens,
        scan_from(st, encode_field(f, ','), ',', true).current == st.current + f,
        scan_from(st, encode_field(f, ','), ',', true).quote != QuoteState::Quoted,
{
    if needs_quotes(f, ',') {
        let e = escape_quotes(f);
        let opened = scan_step(st, '"', ',', true);
        lemma_scan_one(st, '"', ',', true);
        lemma_scan_escaped_stripped(opened, f);
        lemma_scan_concat(st, seq!['"'], e, ',', true);
        assert(seq!['"'] + e + seq!['"'] =~= (seq!['"'] + e).push('"'));
        lemma_scan_push(st, seq!['"'] + e, '"', ',', true);
    } else {
        lemma_plain_field_chars(f, ',');
        lemma_scan_plain(st, f, ',', true);
    }
}

/// A record's line, read with quotes kept and newline as delimiter, is
/// appended as it stands and leaves no quoted span open.
proof fn lemma_scan_record_kept(st: ScanState, r: Seq<Seq<char>>)
    requires
        st.quote != QuoteState::Quoted,
        forall|j: int| 0 <= j < r.len() ==> free_of_cr(#[trigger] r[j]),
    ensures
        scan_from(st, join_fields(r, ','), '\n', false).tokens == st.tokens,
        scan_from(st, join_fields(r, ','), '\n', false).current == st.current + join_fields(r, ','),
        scan_from(st, join_fields(r, ','), '\n', false).quote != QuoteState::Quoted,
    decreases r.len(),
{
    if r.len() == 0 {
        assert(st.current + join_fields(r, ',') =~= st.current);
    } else if r.len() == 1 {
        lemma_scan_field_kept(st, r[0]);
    } else {
        let prefix = r.drop_last();
        let head = join_fields(prefix, ',');
        lemma_scan_record_kept(st, prefix);
        lemma_scan_push(st, head, ',', '\n', false);
        let mid = scan_from(st, head.push(','), '\n', false);
        assert(r[r.len() - 1] == r.last());
        lemma_scan_field_kept(mid, r.last());
        lemma_scan_concat(st, head.push(','), encode_field(r.last(), ','), '\n', false);
        assert((st.current + head).push(',') + encode_field(r.last(), ',') =~= st.current + join_fields(r, ','));
    }
}

/// A record's line, read with quotes stripped and comma as delimiter, gives
/// back all fields but the last as tokens and the last as the open buffer.
proof fn lemma_scan_record_stripped(r: Seq<Seq<char>>)
    requires
        r.len() > 0,
        forall|j: int| 0 <= j < r.len() ==> free_of_cr(#[trigger] r[j]),
    ensures
        scan_from(initial_scan(), join_fields(r, ','), ',', true).tokens == r.drop_last(),
        scan_from(initial_scan(), join_fields(r, ','), ',', true).current == r.last(),
        scan_from(initial_scan(), join_fields(r, ','), ',', true).quote != QuoteState::Quoted,
    decreases r.len(),
{
    if r.len() == 1 {
        lemma_scan_field_stripped(initial_scan(), r[0]);
        assert(Seq::<char>::empty() + r[0] =~= r[0]);
        assert(r.drop_last() =~= Seq::<Seq<char>>::empty());
    } else {
        let prefix = r.drop_last();
        let head = join_fields(prefix, ',');
        lemma_scan_record_stripped(prefix);
        lemma_scan_push(initial_scan(), head, ',', ',', true);
        let mid = scan_from(initial_scan(), head.push(','), ',', true);
        assert(mid.tokens =~= prefix);
        assert(r[r.len() - 1] == r.last());
        lemma_scan_field_stripped(mid, r.last());
        lemma_scan_concat(initial_scan(), head.push(','), encode_field(r.last(), ','), ',', true);
        assert(Seq::<char>::empty() + r.last() =~= r.last());
    }
}

/// Splitting a record's line on commas gives back the record.
pub proof fn lemma_split_joined_record(r: Seq<Seq<char>>)
    requires
        r.len() > 0,
        forall|j: int| 0 <= j < r.len() ==> free_of_cr(#[trigger] r[j]),
    ensures
        split_quoted(join_fields(r, ','), ',', true) == r,
{
    lemma_scan_record_stripped(r);
    assert(r.drop_last().push(r.last()) =~= r);
}

/// Reading the newline-terminated lines of `records` with quotes kept
/// gives each record's line as a token, with nothing pending.
proof fn lemma_scan_block(records: Seq<Seq<Seq<char>>>)
    requires
        all_free_of_cr(records),
    ensures
        scan_from(initial_scan(), record_block(records, ','), '\n', false).tokens == record_texts(records),
        scan_from(initial_scan(), record_block(records, ','), '\n', false).current == Seq::<char>::empty(),
        scan_from(initial_scan(), record_block(records, ','), '\n', false).quote == QuoteState::Unquoted,
    decreases records.len(),
{
    if records.len() == 0 {
        assert(record_texts(records) =~= Seq::<Seq<char>>::empty());
    } else {
        let prefix = records.drop_last();
        let last = records.last();
        assert(all_free_of_cr(prefix)) by {
            assert forall|i: int, j: int| 0 <= i < prefix.len() && 0 <= j < prefix[i].len() implies free_of_cr(
                #[trigger] prefix[i][j],
            ) by {
                assert(prefix[i] == records[i]);
            }
        }
        lemma_scan_block(prefix);
        let before = scan_from(initial_scan(), record_block(prefix, ','), '\n', false);
        assert forall|j: int| 0 <= j < last.len() implies free_of_cr(#[trigger] last[j]) by {
            assert(records[records.len() - 1] == last);
        }
        lemma_scan_record_kept(before, last);
        lemma_scan_concat(initial_scan(), record_block(prefix, ','), join_fields(last, ','), '\n', false);
        assert(record_block(records, ',') == (record_block(prefix, ',') + join_fields(last, ',')).push('\n')) by {
            assert(record_block(prefix, ',') + join_fields(last, ',').push('\n') =~= (record_block(prefix, ',')
                + join_fields(last, ',')).push('\n'));
        }
        lemma_scan_push(initial_scan(), record_block(prefix, ',') + join_fields(last, ','), '\n', '\n', false);
        assert(Seq::<char>::empty() + join_fields(last, ',') =~= join_fields(last, ','));
        assert(record_texts(prefix).push(join_fields(last, ',')) =~= record_texts(records));
    }
}


/// Doubling quotes keeps every other character of the field.
proof fn lemma_escape_keeps_char(f: Seq<char>, c: char)
    requires
        c != '"',
        f.contains(c),
    ensures
        escape_quotes(f).contains(c),
    decreases f.len(),
{
    let prefix = f.drop_last();
    if f.last() == c {
        assert(escape_quotes(f)[escape_quotes(f).len() - 1] == c);
    } else {
        let k = choose|k: int| 0 <= k < f.len() && f[k] == c;
        assert(k < f.len() - 1) by {
            assert(f[f.len() - 1] == f.last());
        }
        assert(prefix[k] == c);
        lemma_escape_keeps_char(prefix, c);
        let e = escape_quotes(prefix);
        let m = choose|m: int| 0 <= m < e.len() && e[m] == c;
        assert(escape_quotes(f)[m] == c);
    }
}

/// The line of a record is empty only when the record has no field or a
/// single empty one.
proof fn lemma_join_nonempty(r: Seq<Seq<char>>)
    requires
        r.len() > 0,
        !(r.len() == 1 && r[0].len() == 0),
    ensures
        join_fields(r, ',').len() > 0,
{
    if r.len() == 1 {
        if needs_quotes(r[0], ',') {
            assert((seq!['"'] + escape_quotes(r[0]) + seq!['"']).len() >= 2);
        }
    }
}

/// The line of a record holds a comma when the record has two fields or
/// more, and holds what its single field holds of commas and newlines.
proof fn lemma_join_shaped(r: Seq<Seq<char>>)
    requires
        r.len() > 1 || (r.len() == 1 && (r[0].contains(',') || r[0].contains('\n'))),
    ensures
        join_fields(r, ',').contains(',') || join_fields(r, ',').contains('\n'),
{
    if r.len() > 1 {
        let head = join_fields(r.drop_last(), ',');
        assert(join_fields(r, ',')[head.len() as int] == ',');
    } else {
        let f = r[0];
        let text = seq!['"'] + escape_quotes(f) + seq!['"'];
        assert(needs_quotes(f, ',')) by {
            if f.contains(',') {
                let k = choose|k: int| 0 <= k < f.len() && f[k] == ',';
                assert(f[k] == ',');
            } else {
                let k = choose|k: int| 0 <= k < f.len() && f[k] == '\n';
                assert(f[k] == '\n');
            }
        }
        let c = if f.contains(',') { ',' } else { '\n' };
        lemma_escape_keeps_char(f, c);
        let e = escape_quotes(f);
        let m = choose|m: int| 0 <= m < e.len() && e[m] == c;
        assert(text[m + 1] == c);
    }
}

/// Writing records with commas (quoting the fields that need it) and parsing
/// the text gives back the same records.
///
/// This holds of every record set but those the text cannot represent: an
/// empty set, a record with no field, a last record made of one empty field
/// (its line would be a final newline), a field holding a carriage return
/// (the parser drops them), and a single record with a single field that
/// holds no comma and no newline (the text would not look delimited).
pub proof fn lemma_quoted_round_trip(records: Seq<Seq<Seq<char>>>)
    requires
        records.len() > 0,
        forall|i: int| 0 <= i < records.len() ==> (#[trigger] records[i]).len() > 0,
        !(records.last().len() == 1 && records.last()[0].len() == 0),
        all_free_of_cr(records),
        records.len() > 1 || records[0].len() > 1 || records[0][0].contains(',') || records[0][0].contains(
            '\n',
        ),
    ensures
        csv_shaped(records_text(records, ',')),
        parse_records(records_text(records, ',')) == records,
{
    let prefix = records.drop_last();
    let last = records.last();
    let text = records_text(records, ',');
    let head = record_block(prefix, ',');
    assert(sep_directive(',') + record_block(records, ',') =~= record_block(records, ','));
    assert(text =~= head + join_fields(last, ','));
    assert(all_free_of_cr(prefix)) by {
        assert forall|i: int, j: int| 0 <= i < prefix.len() && 0 <= j < prefix[i].len() implies free_of_cr(
            #[trigger] prefix[i][j],
        ) by {
            assert(prefix[i] == records[i]);
        }
    }
    assert(records[records.len() - 1] == last);
    assert forall|j: int| 0 <= j < last.len() implies free_of_cr(#[trigger] last[j]) by {
        assert(records[records.len() - 1][j] == last[j]);
    }
    lemma_scan_block(prefix);
    let before = scan_from(initial_scan(), head, '\n', false);
    lemma_scan_record_kept(before, last);
    lemma_scan_concat(initial_scan(), head, join_fields(last, ','), '\n', false);
    assert(Seq::<char>::empty() + join_fields(last, ',') =~= join_fields(last, ','));
    let lines = split_quoted(text, '\n', false);
    assert(lines =~= record_texts(records));
    lemma_join_nonempty(last);
    assert(record_lines(text) == record_texts(records));
    assert forall|i: int| 0 <= i < records.len() implies split_quoted(
        #[trigger] record_texts(records)[i],
        ',',
        true,
    ) == records[i] by {
        assert forall|j: int| 0 <= j < records[i].len() implies free_of_cr(#[trigger] records[i][j]) by {}
        lemma_split_joined_record(records[i]);
    }
    assert(parse_records(text) =~= records);
    if records.len() > 1 {
        let p = prefix.drop_last();
        assert(head =~= record_block(p, ',') + join_fields(prefix.last(), ',').push('\n'));
        assert(text[head.len() - 1] == '\n');
    } else {
        assert(head =~= Seq::<char>::empty());
        lemma_join_shaped(last);
        assert(text =~= join_fields(last, ','));
    }
}

/// Writing records whose fields hold no comma, quote, newline or carriage
/// return with commas, and parsing the text, gives back the same records.
///
/// The record sets left out are those of the quoted round trip: an empty
/// set, a record with no field, a last record made of one empty field, and a
/// single record with a single field.
pub proof fn lemma_plain_round_trip(records: Seq<Seq<Seq<char>>>)
    requires
        records.len() > 0,
        forall|i: int| 0 <= i < records.len() ==> (#[trigger] records[i]).len() > 0,
        !(records.last().len() == 1 && records.last()[0].len() == 0),
        records.len() > 1 || records[0].len() > 1,
        forall|i: int, j: int|
            0 <= i < records.len() && 0 <= j < records[i].len() ==> !needs_quotes(#[trigger] records[i][j], ','),
        all_free_of_cr(records),
    ensures
        parse_records(records_text(records, ',')) == records,
{
    lemma_quoted_round_trip(records);
}

} // verus!
