//! Properties of the rows that a TSV text parses into.

use vstd::prelude::*;
use crate::json::{entries_get, entries_insert, LeafV, ValueV};
use crate::laws::{
    law_object_get_after_insert, last_column, law_clean_field_has_no_separators, law_integer_field_roundtrip,
    law_row_reads_its_fields, lemma_nat_digits, lemma_replace_excludes,
};
use crate::metrics::{clean_field, escape_quotes, map_element, map_literal, metric_tsv, tsv_header};
use crate::number::field_value;
use crate::text::{
    in_class, int_text, is_digit, is_whitespace, join, lemma_split_char_nonempty, lines,
    nat_digits, split_char, strip_cr, trim, trim_end_by, trim_start_by, CharClass,
};
use crate::utils::{
    cell_value, column_value, columns_of, data_lines, leaf_sql, msg_no_header, row_object, row_sql,
    tsv_rows,
};

verus! {

/// Whether `c` is among the keys of the entries.
pub open spec fn has_key(es: Seq<(Seq<char>, LeafV)>, c: Seq<char>) -> bool {
    exists|i: int| 0 <= i < es.len() && #[trigger] es[i].0 == c
}

proof fn lemma_blank_when_all_whitespace(s: Seq<char>)
    requires
        forall|k: int| 0 <= k < s.len() ==> is_whitespace(#[trigger] s[k]),
    ensures
        trim_start_by(s, CharClass::Whitespace).len() == 0,
    decreases s.len(),
{
    if s.len() > 0 {
        let rest = s.drop_first();
        assert forall|k: int| 0 <= k < rest.len() implies is_whitespace(#[trigger] rest[k]) by {
            assert(rest[k] == s[k + 1]);
        }
        lemma_blank_when_all_whitespace(rest);
    }
}

/// A text that is not blank holds a character that is no whitespace.
proof fn lemma_nonblank_has_visible(s: Seq<char>) -> (k: int)
    requires
        trim(s).len() > 0,
    ensures
        0 <= k < s.len(),
        !is_whitespace(s[k]),
{
    if forall|k: int| 0 <= k < s.len() ==> is_whitespace(#[trigger] s[k]) {
        lemma_blank_when_all_whitespace(s);
        assert(trim(s).len() == 0);
    }
    choose|k: int| 0 <= k < s.len() && !is_whitespace(#[trigger] s[k])
}

proof fn lemma_trim_start_keeps_visible(s: Seq<char>, k: int) -> (j: int)
    requires
        0 <= k < s.len(),
        !is_whitespace(s[k]),
    ensures
        0 <= j < trim_start_by(s, CharClass::Whitespace).len(),
        !is_whitespace(trim_start_by(s, CharClass::Whitespace)[j]),
    decreases s.len(),
{
    if in_class(CharClass::Whitespace, s[0]) {
        assert(s.drop_first()[k - 1] == s[k]);
        lemma_trim_start_keeps_visible(s.drop_first(), k - 1)
    } else {
        k
    }
}

proof fn lemma_trim_end_keeps_visible(s: Seq<char>, k: int)
    requires
        0 <= k < s.len(),
        !is_whitespace(s[k]),
    ensures
        trim_end_by(s, CharClass::Whitespace).len() > 0,
    decreases s.len(),
{
    if in_class(CharClass::Whitespace, s.last()) {
        assert(s.drop_last()[k] == s[k]);
        lemma_trim_end_keeps_visible(s.drop_last(), k);
    }
}

/// A text that holds a character that is no whitespace is not blank.
proof fn lemma_visible_not_blank(s: Seq<char>, k: int)
    requires
        0 <= k < s.len(),
        !is_whitespace(s[k]),
    ensures
        trim(s).len() > 0,
{
    let j = lemma_trim_start_keeps_visible(s, k);
    lemma_trim_end_keeps_visible(trim_start_by(s, CharClass::Whitespace), j);
}

/// Every character other than the separator stands in one of the pieces.
proof fn lemma_split_keeps_char(s: Seq<char>, sep: char, k: int) -> (ij: (int, int))
    requires
        0 <= k < s.len(),
        s[k] != sep,
    ensures
        0 <= ij.0 < split_char(s, sep).len(),
        0 <= ij.1 < split_char(s, sep)[ij.0].len(),
        split_char(s, sep)[ij.0][ij.1] == s[k],
    decreases s.len(),
{
    let prev = split_char(s.drop_last(), sep);
    lemma_split_char_nonempty(s.drop_last(), sep);
    if k == s.len() - 1 {
        (prev.len() - 1, prev.last().len() as int)
    } else {
        assert(s.drop_last()[k] == s[k]);
        let (i, j) = lemma_split_keeps_char(s.drop_last(), sep, k);
        (i, j)
    }
}

/// A TSV text is refused only where it has no header line or a blank
/// one, and then always with that message: a header that is not blank
/// names at least one column.
pub proof fn law_only_header_error(text: Seq<char>)
    ensures
        tsv_rows(text) is Err <==> (lines(text).len() == 0 || trim(lines(text)[0]).len() == 0),
        tsv_rows(text) is Err ==> tsv_rows(text) == Err::<Seq<ValueV>, Seq<char>>(msg_no_header()),
{
    let ls = lines(text);
    if ls.len() > 0 && trim(ls[0]).len() > 0 {
        let h = ls[0];
        let k = lemma_nonblank_has_visible(h);
        assert(is_whitespace('\t'));
        let (i, j) = lemma_split_keeps_char(h, '\t', k);
        let p = split_char(h, '\t')[i];
        lemma_visible_not_blank(p, j);
        let cols = columns_of(h);
        assert(cols[i] == trim(p));
        assert(cols[i].len() > 0);
    }
}

proof fn lemma_has_key_cons(e: (Seq<char>, LeafV), es: Seq<(Seq<char>, LeafV)>, c: Seq<char>)
    ensures
        has_key(seq![e] + es, c) <==> (e.0 == c || has_key(es, c)),
{
    let all = seq![e] + es;
    if has_key(es, c) {
        let i = choose|i: int| 0 <= i < es.len() && #[trigger] es[i].0 == c;
        assert(all[i + 1] == es[i]);
    }
    if e.0 == c {
        assert(all[0] == e);
    }
    if has_key(all, c) {
        let i = choose|i: int| 0 <= i < all.len() && #[trigger] all[i].0 == c;
        if i > 0 {
            assert(all[i] == es[i - 1]);
        }
    }
}

/// Writing a field adds its key to the keys and keeps the others.
proof fn lemma_insert_keys(es: Seq<(Seq<char>, LeafV)>, k: Seq<char>, v: LeafV, c: Seq<char>)
    ensures
        has_key(entries_insert(es, k, v), c) <==> (c == k || has_key(es, c)),
    decreases es.len(),
{
    let ins = entries_insert(es, k, v);
    if es.len() == 0 {
        assert(ins =~= seq![(k, v)] + es);
        lemma_has_key_cons((k, v), es, c);
    } else if es[0].0 == k {
        assert(es =~= seq![es[0]] + es.drop_first());
        assert(ins =~= seq![(k, v)] + es.drop_first());
        lemma_has_key_cons((k, v), es.drop_first(), c);
        lemma_has_key_cons(es[0], es.drop_first(), c);
    } else if crate::json::chars_lt(k, es[0].0) {
        lemma_has_key_cons((k, v), es, c);
    } else {
        lemma_insert_keys(es.drop_first(), k, v, c);
        assert(es =~= seq![es[0]] + es.drop_first());
        lemma_has_key_cons(es[0], entries_insert(es.drop_first(), k, v), c);
        lemma_has_key_cons(es[0], es.drop_first(), c);
    }
}

/// A parsed row has exactly the named columns as keys.
pub proof fn law_row_keys(cols: Seq<Seq<char>>, fields: Seq<Seq<char>>, c: Seq<char>)
    ensures
        has_key(row_object(cols, fields), c) <==> (c.len() > 0 && cols.contains(c)),
    decreases cols.len(),
{
    if cols.len() == 0 {
        assert(!has_key(row_object(cols, fields), c));
    } else {
        let init = cols.drop_last();
        law_row_keys(init, fields, c);
        let i = cols.len() - 1;
        if cols[i].len() > 0 {
            lemma_insert_keys(row_object(init, fields), cols[i], crate::utils::cell_value(fields, i), c);
        }
        if init.contains(c) {
            let j = choose|j: int| 0 <= j < init.len() && init[j] == c;
            assert(cols[j] == c);
        }
        if cols.contains(c) {
            let j = choose|j: int| 0 <= j < cols.len() && cols[j] == c;
            if j < i {
                assert(init[j] == c);
            }
        }
    }
}

/// The rows parsed from a TSV text match its non-blank data lines one for
/// one, in order; each row is the object of its line, and its keys are
/// exactly the named columns of the header.
pub proof fn law_parsed_rows_shape(text: Seq<char>, j: int, c: Seq<char>)
    requires
        tsv_rows(text) is Ok,
    ensures
        ({
            let ls = lines(text);
            let cols = columns_of(ls[0]);
            let data = data_lines(ls.drop_first());
            let rows = tsv_rows(text)->Ok_0;
            &&& rows.len() == data.len()
            &&& 0 <= j < rows.len() ==> rows[j] == ValueV::Object(
                row_object(cols, split_char(data[j], '\t')),
            )
            &&& 0 <= j < rows.len() ==> (has_key(rows[j]->Object_0, c) <==> (c.len() > 0
                && cols.contains(c)))
        }),
{
    let ls = lines(text);
    let data = data_lines(ls.drop_first());
    if 0 <= j < data.len() {
        law_row_keys(columns_of(ls[0]), split_char(data[j], '\t'), c);
    }
}

// ---------------------------------------------------------------------
// Whitespace around a field
// ---------------------------------------------------------------------

pub open spec fn all_whitespace(s: Seq<char>) -> bool {
    forall|k: int| 0 <= k < s.len() ==> is_whitespace(#[trigger] s[k])
}

proof fn lemma_trim_start_skips_whitespace(w: Seq<char>, x: Seq<char>)
    requires
        all_whitespace(w),
    ensures
        trim_start_by(w + x, CharClass::Whitespace) == trim_start_by(x, CharClass::Whitespace),
    decreases w.len(),
{
    if w.len() > 0 {
        assert((w + x).drop_first() =~= w.drop_first() + x);
        assert((w + x)[0] == w[0]);
        assert(all_whitespace(w.drop_first())) by {
            assert forall|k: int| 0 <= k < w.drop_first().len() implies is_whitespace(
                #[trigger] w.drop_first()[k],
            ) by {
                assert(w.drop_first()[k] == w[k + 1]);
            }
        };
        lemma_trim_start_skips_whitespace(w.drop_first(), x);
    } else {
        assert(w + x =~= x);
    }
}

proof fn lemma_trim_end_skips_whitespace(y: Seq<char>, w: Seq<char>)
    requires
        all_whitespace(w),
    ensures
        trim_end_by(y + w, CharClass::Whitespace) == trim_end_by(y, CharClass::Whitespace),
    decreases w.len(),
{
    if w.len() > 0 {
        assert((y + w).drop_last() =~= y + w.drop_last());
        assert((y + w).last() == w.last());
        assert(all_whitespace(w.drop_last())) by {
            assert forall|k: int| 0 <= k < w.drop_last().len() implies is_whitespace(
                #[trigger] w.drop_last()[k],
            ) by {
                assert(w.drop_last()[k] == w[k]);
            }
        };
        lemma_trim_end_skips_whitespace(y, w.drop_last());
    } else {
        assert(y + w =~= y);
    }
}

/// Trimming the start of `s + w`, for whitespace `w`: the start of `s`
/// trimmed, followed by `w`, where `s` holds a visible character; else
/// nothing.
proof fn lemma_trim_start_of_padded(s: Seq<char>, w: Seq<char>)
    requires
        all_whitespace(w),
    ensures
        all_whitespace(s) ==> trim_start_by(s + w, CharClass::Whitespace).len() == 0,
        !all_whitespace(s) ==> trim_start_by(s + w, CharClass::Whitespace) == trim_start_by(
            s,
            CharClass::Whitespace,
        ) + w,
    decreases s.len(),
{
    if s.len() == 0 {
        assert(s + w =~= w);
        lemma_blank_when_all_whitespace(w);
    } else {
        assert((s + w).drop_first() =~= s.drop_first() + w);
        assert((s + w)[0] == s[0]);
        lemma_trim_start_of_padded(s.drop_first(), w);
        if all_whitespace(s) {
            assert(all_whitespace(s.drop_first())) by {
                assert forall|k: int| 0 <= k < s.drop_first().len() implies is_whitespace(
                    #[trigger] s.drop_first()[k],
                ) by {
                    assert(s.drop_first()[k] == s[k + 1]);
                }
            };
        } else if is_whitespace(s[0]) {
            assert(!all_whitespace(s.drop_first())) by {
                let k = choose|k: int| 0 <= k < s.len() && !is_whitespace(#[trigger] s[k]);
                assert(s.drop_first()[k - 1] == s[k]);
            };
        }
    }
}

/// Whitespace added around a text leaves its trim as it was.
pub proof fn law_trim_ignores_padding(s: Seq<char>, pre: Seq<char>, post: Seq<char>)
    requires
        all_whitespace(pre),
        all_whitespace(post),
    ensures
        trim(pre + s + post) == trim(s),
{
    assert(pre + s + post =~= pre + (s + post));
    lemma_trim_start_skips_whitespace(pre, s + post);
    lemma_trim_start_of_padded(s, post);
    if all_whitespace(s) {
        lemma_blank_when_all_whitespace(s);
        assert(trim(s).len() == 0);
    } else {
        lemma_trim_end_skips_whitespace(trim_start_by(s, CharClass::Whitespace), post);
    }
}

/// A parsed cell does not depend on whitespace around its field: the
/// field padded with whitespace at either end gives the same value.
pub proof fn law_cell_ignores_padding(fields: Seq<Seq<char>>, i: int, pre: Seq<char>, post: Seq<char>)
    requires
        0 <= i < fields.len(),
        all_whitespace(pre),
        all_whitespace(post),
    ensures
        cell_value(fields.update(i, pre + fields[i] + post), i) == cell_value(fields, i),
{
    law_trim_ignores_padding(fields[i], pre, post);
}

// ---------------------------------------------------------------------
// Missing values in a statement
// ---------------------------------------------------------------------

/// In an `INSERT` row, a column that the row lacks is written as `NULL`:
/// the row's tuple is the same as for the row with that column set to
/// `null`.
pub proof fn law_missing_column_is_null(
    columns: Seq<Seq<char>>,
    obj: Seq<(Seq<char>, LeafV)>,
    c: Seq<char>,
)
    requires
        entries_get(obj, c) is None,
    ensures
        leaf_sql(column_value(obj, c)) == "NULL"@,
        row_sql(columns, obj) == row_sql(columns, entries_insert(obj, c, LeafV::Null)),
{
    reveal_strlit("NULL");
    let filled = entries_insert(obj, c, LeafV::Null);
    assert forall|k: int| 0 <= k < columns.len() implies column_value(obj, #[trigger] columns[k])
        == column_value(filled, columns[k]) by {
        law_object_get_after_insert(obj, c, LeafV::Null, columns[k]);
    }
    assert(columns.map_values(|x: Seq<char>| leaf_sql(column_value(obj, x))) =~= columns.map_values(
        |x: Seq<char>| leaf_sql(column_value(filled, x)),
    ));
}

// ---------------------------------------------------------------------
// A metric line read back
// ---------------------------------------------------------------------

/// The columns of the metrics table, as the header of a metric batch
/// names them.
pub open spec fn metric_columns() -> Seq<Seq<char>> {
    seq![
        "event_time"@,
        "event_type"@,
        "event_name"@,
        "duration_ms"@,
        "status"@,
        "user"@,
        "comment"@,
        "payload"@,
    ]
}

proof fn lemma_split_concat(a: Seq<char>, sep: char, b: Seq<char>)
    ensures
        split_char(a + seq![sep] + b, sep) == split_char(a, sep) + split_char(b, sep),
    decreases b.len(),
{
    let s = a + seq![sep] + b;
    lemma_split_char_nonempty(a, sep);
    if b.len() == 0 {
        assert(s.drop_last() =~= a);
        assert(split_char(s, sep) =~= split_char(a, sep) + split_char(b, sep));
    } else {
        lemma_split_concat(a, sep, b.drop_last());
        assert(s.drop_last() =~= a + seq![sep] + b.drop_last());
        lemma_split_char_nonempty(b.drop_last(), sep);
        let pa = split_char(a, sep);
        let pb = split_char(b.drop_last(), sep);
        if b.last() == sep {
            assert(split_char(s, sep) =~= pa + pb.push(Seq::<char>::empty()));
        } else {
            assert(split_char(s, sep) =~= pa + pb.update(pb.len() - 1, pb.last().push(b.last())));
        }
    }
}

proof fn lemma_split_plain(a: Seq<char>, sep: char)
    requires
        !a.contains(sep),
    ensures
        split_char(a, sep) == seq![a],
    decreases a.len(),
{
    if a.len() > 0 {
        assert(!a.drop_last().contains(sep)) by {
            if a.drop_last().contains(sep) {
                let i = choose|i: int| 0 <= i < a.drop_last().len() && a.drop_last()[i] == sep;
                assert(a[i] == sep);
            }
        };
        lemma_split_plain(a.drop_last(), sep);
        if a[a.len() - 1] == sep {
            assert(a.contains(sep));
        }
        assert(a.drop_last().push(a.last()) =~= a);
        assert(split_char(a, sep) =~= seq![a]);
    } else {
        assert(a =~= Seq::<char>::empty());
        assert(split_char(a, sep) =~= seq![a]);
    }
}

/// Splitting parts joined by a separator that none holds gives the parts.
proof fn lemma_split_join(parts: Seq<Seq<char>>, sep: char)
    requires
        parts.len() >= 1,
        forall|i: int| 0 <= i < parts.len() ==> !(#[trigger] parts[i]).contains(sep),
    ensures
        split_char(join(parts, seq![sep]), sep) == parts,
    decreases parts.len(),
{
    if parts.len() == 1 {
        lemma_split_plain(parts[0], sep);
        assert(seq![parts[0]] =~= parts);
    } else {
        let init = parts.drop_last();
        assert forall|i: int| 0 <= i < init.len() implies !(#[trigger] init[i]).contains(sep) by {
            assert(init[i] == parts[i]);
        }
        lemma_split_join(init, sep);
        lemma_split_concat(join(init, seq![sep]), sep, parts.last());
        lemma_split_plain(parts.last(), sep);
        assert(init + seq![parts.last()] =~= parts);
    }
}

proof fn lemma_concat_excludes(a: Seq<char>, b: Seq<char>, x: char)
    requires
        !a.contains(x),
        !b.contains(x),
    ensures
        !(a + b).contains(x),
{
    if (a + b).contains(x) {
        let i = choose|i: int| 0 <= i < (a + b).len() && (a + b)[i] == x;
        if i < a.len() {
            assert(a[i] == x);
        } else {
            assert(b[i - a.len()] == x);
        }
    }
}

proof fn lemma_join_excludes(parts: Seq<Seq<char>>, sep: Seq<char>, x: char)
    requires
        forall|i: int| 0 <= i < parts.len() ==> !(#[trigger] parts[i]).contains(x),
        !sep.contains(x),
    ensures
        !join(parts, sep).contains(x),
    decreases parts.len(),
{
    if parts.len() == 0 {
        assert(!Seq::<char>::empty().contains(x));
    } else if parts.len() > 1 {
        let init = parts.drop_last();
        assert forall|i: int| 0 <= i < init.len() implies !(#[trigger] init[i]).contains(x) by {
            assert(init[i] == parts[i]);
        }
        lemma_join_excludes(init, sep, x);
        lemma_concat_excludes(join(init, sep), sep, x);
        lemma_concat_excludes(join(init, sep) + sep, parts.last(), x);
    }
}

proof fn lemma_literal_excludes(s: Seq<char>, x: char)
    requires
        forall|i: int| 0 <= i < s.len() ==> #[trigger] s[i] != x,
    ensures
        !s.contains(x),
{
}

/// The map literal of entries free of `x` is free of `x`, for a tab or a
/// line feed.
proof fn lemma_map_literal_excludes(entries: Seq<(Seq<char>, Seq<char>)>, x: char)
    requires
        x == '\t' || x == '\n',
        forall|i: int|
            0 <= i < entries.len() ==> !(#[trigger] entries[i]).0.contains(x) && !entries[i].1.contains(x),
    ensures
        !map_literal(entries).contains(x),
{
    let q = seq!['\\', '\''];
    lemma_literal_excludes(q, x);
    let els = entries.map_values(|e: (Seq<char>, Seq<char>)| map_element(e));
    assert forall|i: int| 0 <= i < els.len() implies !(#[trigger] els[i]).contains(x) by {
        let e = entries[i];
        lemma_replace_excludes(e.0, '\'', q, x);
        lemma_replace_excludes(e.1, '\'', q, x);
        lemma_literal_excludes(seq!['\''], x);
        lemma_literal_excludes(seq!['\'', ':', '\''], x);
        lemma_concat_excludes(seq!['\''], escape_quotes(e.0), x);
        lemma_concat_excludes(seq!['\''] + escape_quotes(e.0), seq!['\'', ':', '\''], x);
        lemma_concat_excludes(
            seq!['\''] + escape_quotes(e.0) + seq!['\'', ':', '\''],
            escape_quotes(e.1),
            x,
        );
        lemma_concat_excludes(
            seq!['\''] + escape_quotes(e.0) + seq!['\'', ':', '\''] + escape_quotes(e.1),
            seq!['\''],
            x,
        );
    }
    lemma_literal_excludes(seq![','], x);
    lemma_join_excludes(els, seq![','], x);
    lemma_literal_excludes(seq!['{'], x);
    lemma_literal_excludes(seq!['}'], x);
    lemma_concat_excludes(seq!['{'], join(els, seq![',']), x);
    lemma_concat_excludes(seq!['{'] + join(els, seq![',']), seq!['}'], x);
}

/// The text of an integer: a sign or digit first, digits after, so no
/// whitespace at either end and no separator.
proof fn lemma_int_text_plain(n: int)
    ensures
        int_text(n).len() > 0,
        !is_whitespace(int_text(n)[0]),
        !is_whitespace(int_text(n).last()),
        !int_text(n).contains('\t'),
        !int_text(n).contains('\n'),
{
    let m = if n < 0 {
        (-n) as nat
    } else {
        n as nat
    };
    lemma_nat_digits(m);
    let ds = nat_digits(m);
    assert(is_digit(ds[0]) && is_digit(ds.last()));
    let t = int_text(n);
    assert forall|i: int| 0 <= i < t.len() implies #[trigger] t[i] != '\t' && t[i] != '\n' by {
        if n < 0 {
            if i > 0 {
                assert(t[i] == ds[i - 1]);
                assert(is_digit(ds[i - 1]));
            }
        } else {
            assert(is_digit(ds[i]));
        }
    }
    if n < 0 {
        assert(t[0] == '-');
        assert(t.last() == ds.last());
    }
}

/// A text that starts and ends with a character other than whitespace is
/// its own trim.
proof fn lemma_trim_plain(s: Seq<char>)
    requires
        s.len() > 0,
        !is_whitespace(s[0]),
        !is_whitespace(s.last()),
    ensures
        trim(s) == s,
{
}

/// The fields of a metric's data line, in column order.
pub open spec fn metric_fields(
    event_type: Seq<char>,
    event_name: Seq<char>,
    duration_ms: int,
    status: Seq<char>,
    user: Seq<char>,
    entries: Seq<(Seq<char>, Seq<char>)>,
) -> Seq<Seq<char>> {
    seq![
        Seq::<char>::empty(),
        clean_field(event_type),
        clean_field(event_name),
        int_text(duration_ms),
        clean_field(status),
        clean_field(user),
        Seq::<char>::empty(),
        map_literal(entries),
    ]
}

pub open spec fn payload_plain(entries: Seq<(Seq<char>, Seq<char>)>) -> bool {
    forall|i: int|
        0 <= i < entries.len() ==> !(#[trigger] entries[i]).0.contains('\t')
            && !entries[i].0.contains('\n') && !entries[i].1.contains('\t')
            && !entries[i].1.contains('\n')
}

/// The header of a metric batch is its columns joined by tabs, then a line
/// feed.
proof fn lemma_metric_header()
    ensures
        tsv_header() == join(metric_columns(), seq!['\t']) + seq!['\n'],
        forall|i: int|
            0 <= i < metric_columns().len() ==> !(#[trigger] metric_columns()[i]).contains('\t')
                && !metric_columns()[i].contains('\n') && metric_columns()[i].len() > 0
                && trim(metric_columns()[i]) == metric_columns()[i],
{
    let names = metric_columns();
    reveal_strlit("event_time");
    reveal_strlit("event_type");
    reveal_strlit("event_name");
    reveal_strlit("duration_ms");
    reveal_strlit("status");
    reveal_strlit("user");
    reveal_strlit("comment");
    reveal_strlit("payload");
    reveal_strlit("event_time\tevent_type\tevent_name\tduration_ms\tstatus\tuser\tcomment\tpayload\n");
    reveal_with_fuel(join, 9);
    assert(tsv_header() =~= join(names, seq!['\t']) + seq!['\n']);
    assert forall|i: int| 0 <= i < names.len() implies !(#[trigger] names[i]).contains('\t')
        && !names[i].contains('\n') && names[i].len() > 0 && trim(names[i]) == names[i] by {
        lemma_trim_plain(names[i]);
    }
}

/// The header line of a metric batch names the metric columns, and is
/// not blank.
proof fn lemma_metric_columns()
    ensures
        columns_of(join(metric_columns(), seq!['\t'])) == metric_columns(),
        !join(metric_columns(), seq!['\t']).contains('\n'),
        trim(join(metric_columns(), seq!['\t'])).len() > 0,
        join(metric_columns(), seq!['\t']).last() != '\r',
{
    let names = metric_columns();
    lemma_metric_header();
    lemma_split_join(names, '\t');
    assert(columns_of(join(names, seq!['\t'])) =~= names);
    lemma_literal_excludes(seq!['\t'], '\n');
    lemma_join_excludes(names, seq!['\t'], '\n');
    reveal_strlit("event_time");
    reveal_strlit("payload");
    reveal_with_fuel(join, 9);
    let hs = join(names, seq!['\t']);
    assert(hs[0] == 'e');
    lemma_visible_not_blank(hs, 0);
    assert(hs.last() == 'd');
}

/// No field of a metric's data line holds a tab or a line feed.
proof fn lemma_metric_fields_plain(
    event_type: Seq<char>,
    event_name: Seq<char>,
    duration_ms: int,
    status: Seq<char>,
    user: Seq<char>,
    entries: Seq<(Seq<char>, Seq<char>)>,
)
    requires
        payload_plain(entries),
    ensures
        ({
            let fields = metric_fields(event_type, event_name, duration_ms, status, user, entries);
            forall|i: int| 0 <= i < fields.len() ==> !(#[trigger] fields[i]).contains('\t')
                && !fields[i].contains('\n')
        }),
{
    law_clean_field_has_no_separators(event_type);
    law_clean_field_has_no_separators(event_name);
    law_clean_field_has_no_separators(status);
    law_clean_field_has_no_separators(user);
    lemma_int_text_plain(duration_ms);
    lemma_map_literal_excludes(entries, '\t');
    lemma_map_literal_excludes(entries, '\n');
    assert(!Seq::<char>::empty().contains('\t'));
    assert(!Seq::<char>::empty().contains('\n'));
}

/// A metric batch is the header, the data line and a line feed.
proof fn lemma_metric_text(
    event_type: Seq<char>,
    event_name: Seq<char>,
    duration_ms: int,
    status: Seq<char>,
    user: Seq<char>,
    entries: Seq<(Seq<char>, Seq<char>)>,
)
    ensures
        metric_tsv(event_type, event_name, duration_ms, status, user, entries) == tsv_header()
            + join(metric_fields(event_type, event_name, duration_ms, status, user, entries), seq!['\t'])
            + seq!['\n'],
{
    let fields = metric_fields(event_type, event_name, duration_ms, status, user, entries);
    let tab = seq!['\t'];
    reveal_with_fuel(join, 9);
    assert(join(fields, tab) =~= seq!['\t'] + fields[1] + tab + fields[2] + tab + fields[3] + tab
        + fields[4] + tab + fields[5] + tab + tab + fields[7]);
    assert(metric_tsv(event_type, event_name, duration_ms, status, user, entries) =~= tsv_header()
        + join(fields, tab) + seq!['\n']);
}

/// The data line of a metric batch opens its payload map with `{` and
/// ends with the `}` that closes it.
proof fn lemma_data_line_ends(
    event_type: Seq<char>,
    event_name: Seq<char>,
    duration_ms: int,
    status: Seq<char>,
    user: Seq<char>,
    entries: Seq<(Seq<char>, Seq<char>)>,
)
    ensures
        ({
            let l = join(
                metric_fields(event_type, event_name, duration_ms, status, user, entries),
                seq!['\t'],
            );
            &&& l.len() > 0
            &&& l.last() == '}'
            &&& trim(l).len() > 0
        }),
{
    let fields = metric_fields(event_type, event_name, duration_ms, status, user, entries);
    let tab = seq!['\t'];
    let ml = map_literal(entries);
    let x = join(fields.drop_last(), tab) + tab;
    let l = join(fields, tab);
    assert(l == x + ml);
    assert(ml[0] == '{');
    assert(ml.last() == '}');
    assert(l[x.len() as int] == '{');
    lemma_visible_not_blank(l, x.len() as int);
}

/// The lines of a metric batch are the header line and the data line.
proof fn lemma_metric_lines(
    event_type: Seq<char>,
    event_name: Seq<char>,
    duration_ms: int,
    status: Seq<char>,
    user: Seq<char>,
    entries: Seq<(Seq<char>, Seq<char>)>,
)
    requires
        payload_plain(entries),
    ensures
        lines(metric_tsv(event_type, event_name, duration_ms, status, user, entries)) == seq![
            join(metric_columns(), seq!['\t']),
            join(metric_fields(event_type, event_name, duration_ms, status, user, entries), seq!['\t']),
        ],
        trim(
            join(metric_fields(event_type, event_name, duration_ms, status, user, entries), seq!['\t']),
        ).len() > 0,
{
    let tab = seq!['\t'];
    let nl = seq!['\n'];
    lemma_metric_header();
    lemma_metric_columns();
    lemma_metric_text(event_type, event_name, duration_ms, status, user, entries);
    lemma_data_line_ends(event_type, event_name, duration_ms, status, user, entries);
    let hs = join(metric_columns(), tab);
    let fields = metric_fields(event_type, event_name, duration_ms, status, user, entries);
    let l = join(fields, tab);
    let text = metric_tsv(event_type, event_name, duration_ms, status, user, entries);
    assert(text =~= hs + nl + (l + nl + Seq::<char>::empty()));
    lemma_metric_fields_plain(event_type, event_name, duration_ms, status, user, entries);
    lemma_literal_excludes(tab, '\n');
    lemma_join_excludes(fields, tab, '\n');
    lemma_split_concat(hs, '\n', l + nl + Seq::<char>::empty());
    lemma_split_concat(l, '\n', Seq::<char>::empty());
    lemma_split_plain(hs, '\n');
    lemma_split_plain(l, '\n');
    let pieces = split_char(text, '\n');
    assert(pieces =~= seq![hs, l, Seq::<char>::empty()]);
    assert(strip_cr(hs) == hs);
    assert(strip_cr(l) == l);
    assert(pieces.drop_last() =~= seq![hs, l]);
    assert(lines(text) =~= seq![hs, l]);
}

/// A metric batch, parsed back as TSV, gives one row whose keys are
/// exactly the metric columns, with no event time and no comment and the
/// metric's duration as a number; so it is where no payload key or value
/// holds a tab or a line feed.
pub proof fn law_metric_line_reads_back(
    event_type: Seq<char>,
    event_name: Seq<char>,
    duration_ms: i64,
    status: Seq<char>,
    user: Seq<char>,
    entries: Seq<(Seq<char>, Seq<char>)>,
    c: Seq<char>,
)
    requires
        payload_plain(entries),
    ensures
        ({
            let text = metric_tsv(event_type, event_name, duration_ms as int, status, user, entries);
            &&& tsv_rows(text) is Ok
            &&& tsv_rows(text)->Ok_0.len() == 1
            &&& tsv_rows(text)->Ok_0[0] is Object
            &&& (has_key(tsv_rows(text)->Ok_0[0]->Object_0, c) <==> metric_columns().contains(c))
            &&& entries_get(tsv_rows(text)->Ok_0[0]->Object_0, "event_time"@) == Some(LeafV::Null)
            &&& entries_get(tsv_rows(text)->Ok_0[0]->Object_0, "comment"@) == Some(LeafV::Null)
            &&& entries_get(tsv_rows(text)->Ok_0[0]->Object_0, "duration_ms"@) == Some(
                LeafV::Number(int_text(duration_ms as int)),
            )
        }),
{
    lemma_metric_rows(event_type, event_name, duration_ms as int, status, user, entries);
    lemma_row_facts(event_type, event_name, duration_ms, status, user, entries, c);
}

/// A metric batch parses into the one row of its data line.
#[verifier::rlimit(40)]
proof fn lemma_metric_rows(
    event_type: Seq<char>,
    event_name: Seq<char>,
    duration_ms: int,
    status: Seq<char>,
    user: Seq<char>,
    entries: Seq<(Seq<char>, Seq<char>)>,
)
    requires
        payload_plain(entries),
    ensures
        tsv_rows(metric_tsv(event_type, event_name, duration_ms, status, user, entries)) == Ok::<
            Seq<ValueV>,
            Seq<char>,
        >(
            seq![
                ValueV::Object(
                    row_object(
                        metric_columns(),
                        metric_fields(event_type, event_name, duration_ms, status, user, entries),
                    ),
                ),
            ],
        ),
{
    let names = metric_columns();
    let fields = metric_fields(event_type, event_name, duration_ms, status, user, entries);
    let hs = join(names, seq!['\t']);
    let l = join(fields, seq!['\t']);
    let text = metric_tsv(event_type, event_name, duration_ms, status, user, entries);
    lemma_metric_lines(event_type, event_name, duration_ms, status, user, entries);
    lemma_metric_columns();
    lemma_metric_fields_plain(event_type, event_name, duration_ms, status, user, entries);
    lemma_split_join(fields, '\t');
    let ls = lines(text);
    assert(ls.drop_first() =~= seq![l]);
    assert(data_lines(seq![l]) =~= seq![l]) by {
        reveal_with_fuel(data_lines, 2);
        assert(seq![l].drop_last() =~= Seq::<Seq<char>>::empty());
        assert(seq![l].last() == l);
        assert(data_lines(Seq::<Seq<char>>::empty()) =~= Seq::<Seq<char>>::empty());
        assert(Seq::<Seq<char>>::empty().push(l) =~= seq![l]);
    };
    reveal_strlit("event_time");
    assert(columns_of(ls[0])[0].len() > 0);
    assert(data_lines(ls.drop_first()).map_values(
        |x: Seq<char>| ValueV::Object(row_object(columns_of(ls[0]), split_char(x, '\t'))),
    ) =~= seq![ValueV::Object(row_object(names, fields))]);
}

proof fn lemma_row_facts(
    event_type: Seq<char>,
    event_name: Seq<char>,
    duration_ms: i64,
    status: Seq<char>,
    user: Seq<char>,
    entries: Seq<(Seq<char>, Seq<char>)>,
    c: Seq<char>,
)
    ensures
        ({
            let row = row_object(
                metric_columns(),
                metric_fields(event_type, event_name, duration_ms as int, status, user, entries),
            );
            &&& (has_key(row, c) <==> metric_columns().contains(c))
            &&& entries_get(row, "event_time"@) == Some(LeafV::Null)
            &&& entries_get(row, "comment"@) == Some(LeafV::Null)
            &&& entries_get(row, "duration_ms"@) == Some(LeafV::Number(int_text(duration_ms as int)))
        }),
{
    let names = metric_columns();
    let d = duration_ms as int;
    let fields = metric_fields(event_type, event_name, d, status, user, entries);
    lemma_metric_header();
    law_row_keys(names, fields, c);
    if names.contains(c) {
        let j = choose|j: int| 0 <= j < names.len() && names[j] == c;
        assert(names[j].len() > 0);
    }
    reveal_strlit("event_time");
    reveal_strlit("event_type");
    reveal_strlit("event_name");
    reveal_strlit("duration_ms");
    reveal_strlit("status");
    reveal_strlit("user");
    reveal_strlit("comment");
    reveal_strlit("payload");
    reveal_with_fuel(last_column, 9);
    assert(names[2][6] != "event_time"@[6] && names[1][7] != "event_time"@[7]);
    law_row_reads_its_fields(names, fields, "event_time"@);
    assert(last_column(names, "event_time"@) == 0);
    assert(names[7][0] != "comment"@[0]);
    law_row_reads_its_fields(names, fields, "comment"@);
    assert(last_column(names, "comment"@) == 6);
    law_row_reads_its_fields(names, fields, "duration_ms"@);
    assert(last_column(names, "duration_ms"@) == 3);
    assert(field_value(trim(Seq::<char>::empty())) == LeafV::Null);
    let it = int_text(d);
    lemma_int_text_plain(d);
    lemma_trim_plain(it);
    law_integer_field_roundtrip(duration_ms);
    assert(cell_value(fields, 3) == LeafV::Number(it));
}

} // verus!
