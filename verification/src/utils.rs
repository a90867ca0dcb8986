//! TSV parsing into JSON rows, the `INSERT` statement for a batch of rows,
//! and the metadata query that tells whether a table exists.

use vstd::prelude::*;
use vstd::utf8::{decode_utf8, valid_utf8};
use crate::json::{
    entries_get, entries_insert, keys_of, values_view, JsonLeaf, JsonObject, JsonValue, LeafV,
    ValueV,
};
use crate::number::{classify_field, field_value};
use crate::text::{
    chars_of, concat_chars, join, join_chars, lines, lines_of, replace_char, replace_chars,
    split_char, split_chars, string_of, trim, trim_ws, views,
};

verus! {

broadcast use vstd::string::group_string_axioms;

// ---------------------------------------------------------------------
// TSV to JSON rows
// ---------------------------------------------------------------------

pub open spec fn msg_no_header() -> Seq<char> {
    "Пустые данные или отсутствует строка заголовков (TSV)"@
}

pub open spec fn msg_no_columns() -> Seq<char> {
    "Не удалось определить колонки в заголовке TSV"@
}

/// The column names of a header line: its tab-separated pieces, trimmed.
pub open spec fn columns_of(header: Seq<char>) -> Seq<Seq<char>> {
    split_char(header, '\t').map_values(|c: Seq<char>| trim(c))
}

/// The value of column `i` in a row with fields `fields`: the field's
/// value, or `null` where the row has no such field.
pub open spec fn cell_value(fields: Seq<Seq<char>>, i: int) -> LeafV {
    if i < fields.len() {
        field_value(trim(fields[i]))
    } else {
        LeafV::Null
    }
}

/// The object of one data line: each named column in turn sets its
/// value, so that where two columns share a name the later one wins.
pub open spec fn row_object(columns: Seq<Seq<char>>, fields: Seq<Seq<char>>) -> Seq<
    (Seq<char>, LeafV),
>
    decreases columns.len(),
{
    if columns.len() == 0 {
        Seq::empty()
    } else {
        let prev = row_object(columns.drop_last(), fields);
        let i = columns.len() - 1;
        if columns[i].len() == 0 {
            prev
        } else {
            entries_insert(prev, columns[i], cell_value(fields, i))
        }
    }
}

/// The lines that hold data: those that are not blank.
pub open spec fn data_lines(ls: Seq<Seq<char>>) -> Seq<Seq<char>>
    decreases ls.len(),
{
    if ls.len() == 0 {
        Seq::empty()
    } else if trim(ls.last()).len() == 0 {
        data_lines(ls.drop_last())
    } else {
        data_lines(ls.drop_last()).push(ls.last())
    }
}

/// The rows of a TSV text: the first line names the columns, every other
/// non-blank line is a row.
pub open spec fn tsv_rows(text: Seq<char>) -> Result<Seq<ValueV>, Seq<char>> {
    let ls = lines(text);
    if ls.len() == 0 || trim(ls[0]).len() == 0 {
        Err(msg_no_header())
    } else {
        let cols = columns_of(ls[0]);
        if forall|i: int| 0 <= i < cols.len() ==> #[trigger] cols[i].len() == 0 {
            Err(msg_no_columns())
        } else {
            Ok(
                data_lines(ls.drop_first()).map_values(
                    |l: Seq<char>| ValueV::Object(row_object(cols, split_char(l, '\t'))),
                ),
            )
        }
    }
}

proof fn lemma_take_last<T>(s: Seq<T>, i: int)
    requires
        0 <= i < s.len(),
    ensures
        s.take(i + 1).drop_last() == s.take(i),
        s.take(i + 1).last() == s[i],
{
    assert(s.take(i + 1).drop_last() =~= s.take(i));
}

/// The object of one data line with the given columns.
fn build_row(columns: &Vec<Vec<char>>, fields: &Vec<Vec<char>>) -> (o: JsonObject)
    ensures
        o@ == row_object(views(columns@), views(fields@)),
{
    let mut o = JsonObject::new();
    let mut i: usize = 0;
    assert(views(columns@).take(0) =~= Seq::<Seq<char>>::empty());
    while i < columns.len()
        invariant
            i <= columns@.len(),
            o@ == row_object(views(columns@).take(i as int), views(fields@)),
        decreases columns@.len() - i,
    {
        proof {
            lemma_take_last(views(columns@), i as int);
        }
        if columns[i].len() > 0 {
            let value = if i < fields.len() {
                let t = trim_ws(fields[i].as_slice());
                classify_field(t.as_slice())
            } else {
                JsonLeaf::Null
            };
            o.insert(string_of(columns[i].as_slice()), value);
        }
        i = i + 1;
    }
    assert(views(columns@).take(columns@.len() as int) =~= views(columns@));
    o
}

/// `parse_tsv_to_json`: the rows of a TSV text as JSON objects.
pub fn parse_tsv_to_json(tvs_data: &str) -> (r: Result<Vec<JsonValue>, String>)
    ensures
        match r {
            Ok(rows) => tsv_rows(tvs_data@) == Ok::<Seq<ValueV>, Seq<char>>(values_view(rows@)),
            Err(e) => tsv_rows(tvs_data@) == Err::<Seq<ValueV>, Seq<char>>(e@),
        },
{
    let cs = chars_of(tvs_data);
    let ls = lines_of(cs.as_slice());
    let ghost lsv = views(ls@);
    if ls.len() == 0 {
        return Err("Пустые данные или отсутствует строка заголовков (TSV)".to_string());
    }
    let header_trimmed = trim_ws(ls[0].as_slice());
    if header_trimmed.len() == 0 {
        return Err("Пустые данные или отсутствует строка заголовков (TSV)".to_string());
    }
    let raw = split_chars(ls[0].as_slice(), '\t');
    let mut columns: Vec<Vec<char>> = Vec::new();
    let mut any_named = false;
    let mut i: usize = 0;
    let ghost cols = columns_of(lsv[0]);
    while i < raw.len()
        invariant
            i <= raw@.len(),
            views(raw@) == split_char(lsv[0], '\t'),
            cols == columns_of(lsv[0]),
            views(columns@) == cols.take(i as int),
            any_named == exists|j: int| 0 <= j < i && #[trigger] cols[j].len() != 0,
        decreases raw@.len() - i,
    {
        let c = trim_ws(raw[i].as_slice());
        let ghost before = views(columns@);
        if c.len() > 0 {
            any_named = true;
        }
        columns.push(c);
        assert(views(columns@) =~= before.push(c@));
        assert(cols.take(i + 1) =~= cols.take(i as int).push(cols[i as int]));
        i = i + 1;
    }
    assert(views(columns@) =~= cols);
    if !any_named {
        return Err("Не удалось определить колонки в заголовке TSV".to_string());
    }
    let mut rows: Vec<JsonValue> = Vec::new();
    let mut k: usize = 1;
    let ghost rest = lsv.drop_first();
    assert(rest.take(0) =~= Seq::<Seq<char>>::empty());
    while k < ls.len()
        invariant
            1 <= k <= ls@.len(),
            lsv == views(ls@),
            rest == lsv.drop_first(),
            views(columns@) == cols,
            values_view(rows@) == data_lines(rest.take(k - 1)).map_values(
                |l: Seq<char>| ValueV::Object(row_object(cols, split_char(l, '\t'))),
            ),
        decreases ls@.len() - k,
    {
        proof {
            lemma_take_last(rest, k - 1);
        }
        let line_trimmed = trim_ws(ls[k].as_slice());
        if line_trimmed.len() > 0 {
            let fields = split_chars(ls[k].as_slice(), '\t');
            let o = build_row(&columns, &fields);
            let ghost before = values_view(rows@);
            rows.push(JsonValue::Object(o));
            assert(values_view(rows@) =~= before.push(ValueV::Object(o@)));
        }
        k = k + 1;
    }
    assert(rest.take(ls@.len() - 1) =~= rest);
    Ok(rows)
}

// ---------------------------------------------------------------------
// The INSERT statement of a batch
// ---------------------------------------------------------------------

pub open spec fn msg_no_data() -> Seq<char> {
    "Нет данных для вставки"@
}

pub open spec fn msg_first_not_object() -> Seq<char> {
    "Структура элементов кэша повреждена"@
}

pub open spec fn msg_row_not_object() -> Seq<char> {
    "Элемент батча не является JSON-объектом"@
}

/// A string between single quotes, each quote in it doubled.
pub open spec fn sql_quoted(s: Seq<char>) -> Seq<char> {
    seq!['\''] + replace_char(s, '\'', seq!['\'', '\'']) + seq!['\'']
}

/// The SQL literal of a field value.
pub open spec fn leaf_sql(v: LeafV) -> Seq<char> {
    match v {
        LeafV::Null => seq!['N', 'U', 'L', 'L'],
        LeafV::Bool(b) => if b {
            seq!['1']
        } else {
            seq!['0']
        },
        LeafV::Number(t) => t,
        LeafV::Str(s) => sql_quoted(s),
        LeafV::Nested(t) => sql_quoted(t),
    }
}

/// The value of column `c` in an object, `null` where it has none.
pub open spec fn column_value(obj: Seq<(Seq<char>, LeafV)>, c: Seq<char>) -> LeafV {
    match entries_get(obj, c) {
        Some(v) => v,
        None => LeafV::Null,
    }
}

/// `(v1, v2, ...)`: the values of the columns in one row.
pub open spec fn row_sql(columns: Seq<Seq<char>>, obj: Seq<(Seq<char>, LeafV)>) -> Seq<char> {
    seq!['('] + join(
        columns.map_values(|c: Seq<char>| leaf_sql(column_value(obj, c))),
        seq![',', ' '],
    ) + seq![')']
}

pub open spec fn object_of(v: ValueV) -> Seq<(Seq<char>, LeafV)> {
    match v {
        ValueV::Object(o) => o,
        ValueV::Leaf(_) => Seq::empty(),
    }
}

/// `INSERT INTO t (c1, c2, ...) VALUES (...), (...)`, the columns being
/// the keys of the first row in their order; or the error for an empty
/// batch or a row that is no object.
pub open spec fn insert_sql(table: Seq<char>, rows: Seq<ValueV>) -> Result<Seq<char>, Seq<char>> {
    if rows.len() == 0 {
        Err(msg_no_data())
    } else if rows[0] is Leaf {
        Err(msg_first_not_object())
    } else if exists|i: int| 0 <= i < rows.len() && #[trigger] rows[i] is Leaf {
        Err(msg_row_not_object())
    } else {
        let columns = keys_of(object_of(rows[0]));
        Ok(
            "INSERT INTO "@ + table + seq![' ', '('] + join(columns, seq![',', ' '])
                + ") VALUES "@ + join(
                rows.map_values(|r: ValueV| row_sql(columns, object_of(r))),
                seq![',', ' '],
            ),
        )
    }
}

/// The SQL literal of a field value.
fn leaf_sql_chars(v: &JsonLeaf) -> (out: Vec<char>)
    ensures
        out@ == leaf_sql(v@),
{
    match v {
        JsonLeaf::Null => {
            let out = vec!['N', 'U', 'L', 'L'];
            assert(out@ =~= seq!['N', 'U', 'L', 'L']);
            out
        },
        JsonLeaf::Bool(b) => {
            let out = if *b {
                vec!['1']
            } else {
                vec!['0']
            };
            assert(out@ =~= leaf_sql(v@));
            out
        },
        JsonLeaf::Number(n) => chars_of(n.text().as_str()),
        JsonLeaf::String(s) => quoted_chars(s),
        JsonLeaf::Nested(s) => quoted_chars(s),
    }
}

fn quoted_chars(s: &String) -> (out: Vec<char>)
    ensures
        out@ == sql_quoted(s@),
{
    let cs = chars_of(s.as_str());
    let esc = replace_chars(cs.as_slice(), '\'', &['\'', '\'']);
    let mut out: Vec<char> = vec!['\''];
    concat_chars(&mut out, esc.as_slice());
    out.push('\'');
    assert(out@ =~= sql_quoted(s@));
    out
}

/// The column names: the keys of `first`, in order.
fn key_list(first: &JsonObject) -> (ks: Vec<Vec<char>>)
    ensures
        views(ks@) == keys_of(first@),
{
    let mut ks: Vec<Vec<char>> = Vec::new();
    let mut i: usize = 0;
    while i < first.len()
        invariant
            i <= first@.len(),
            views(ks@) == keys_of(first@).take(i as int),
        decreases first@.len() - i,
    {
        let k = chars_of(first.key_at(i).as_str());
        let ghost before = views(ks@);
        ks.push(k);
        assert(views(ks@) =~= before.push(k@));
        assert(keys_of(first@).take(i + 1) =~= before.push(k@));
        i = i + 1;
    }
    assert(keys_of(first@).take(first@.len() as int) =~= keys_of(first@));
    ks
}

fn row_sql_chars(columns: &Vec<Vec<char>>, obj: &JsonObject) -> (out: Vec<char>)
    ensures
        out@ == row_sql(views(columns@), obj@),
{
    let ghost cv = views(columns@);
    let mut vals: Vec<Vec<char>> = Vec::new();
    let mut i: usize = 0;
    while i < columns.len()
        invariant
            i <= columns@.len(),
            cv == views(columns@),
            views(vals@) == cv.map_values(|c: Seq<char>| leaf_sql(column_value(obj@, c))).take(
                i as int,
            ),
        decreases columns@.len() - i,
    {
        let key = string_of(columns[i].as_slice());
        let v = match obj.get(&key) {
            Some(v) => leaf_sql_chars(v),
            None => leaf_sql_chars(&JsonLeaf::Null),
        };
        let ghost before = views(vals@);
        vals.push(v);
        assert(views(vals@) =~= before.push(v@));
        assert(cv.map_values(|c: Seq<char>| leaf_sql(column_value(obj@, c))).take(i + 1)
            =~= before.push(v@));
        i = i + 1;
    }
    assert(cv.map_values(|c: Seq<char>| leaf_sql(column_value(obj@, c))).take(
        columns@.len() as int,
    ) =~= cv.map_values(|c: Seq<char>| leaf_sql(column_value(obj@, c))));
    let body = join_chars(&vals, &[',', ' ']);
    let mut out: Vec<char> = vec!['('];
    concat_chars(&mut out, body.as_slice());
    out.push(')');
    assert(out@ =~= row_sql(cv, obj@));
    out
}

/// `build_insert_query`: the `INSERT` statement of a batch of rows.
pub fn build_insert_query(table: &str, data: &[JsonValue]) -> (r: Result<String, String>)
    ensures
        match r {
            Ok(sql) => insert_sql(table@, values_view(data@)) == Ok::<Seq<char>, Seq<char>>(
                sql@,
            ),
            Err(e) => insert_sql(table@, values_view(data@)) == Err::<Seq<char>, Seq<char>>(e@),
        },
{
    let ghost rows = values_view(data@);
    if data.len() == 0 {
        return Err("Нет данных для вставки".to_string());
    }
    let first = match &data[0] {
        JsonValue::Object(o) => o,
        JsonValue::Leaf(_) => {
            return Err("Структура элементов кэша повреждена".to_string());
        },
    };
    let columns = key_list(first);
    let ghost cv = views(columns@);
    let mut parts: Vec<Vec<char>> = Vec::new();
    let mut i: usize = 0;
    while i < data.len()
        invariant
            i <= data@.len(),
            rows == values_view(data@),
            rows.len() > 0,
            !(rows[0] is Leaf),
            cv == views(columns@),
            forall|j: int| 0 <= j < i ==> !(#[trigger] rows[j] is Leaf),
            views(parts@) == rows.map_values(|r: ValueV| row_sql(cv, object_of(r))).take(
                i as int,
            ),
        decreases data@.len() - i,
    {
        match &data[i] {
            JsonValue::Object(o) => {
                let p = row_sql_chars(&columns, o);
                let ghost before = views(parts@);
                parts.push(p);
                assert(views(parts@) =~= before.push(p@));
                assert(rows.map_values(|r: ValueV| row_sql(cv, object_of(r))).take(i + 1)
                    =~= before.push(p@));
            },
            JsonValue::Leaf(_) => {
                assert(rows[i as int] is Leaf);
                return Err("Элемент батча не является JSON-объектом".to_string());
            },
        }
        i = i + 1;
    }
    assert(rows.map_values(|r: ValueV| row_sql(cv, object_of(r))).take(data@.len() as int)
        =~= rows.map_values(|r: ValueV| row_sql(cv, object_of(r))));
    let mut out = chars_of("INSERT INTO ");
    concat_chars(&mut out, chars_of(table).as_slice());
    out.push(' ');
    out.push('(');
    concat_chars(&mut out, join_chars(&columns, &[',', ' ']).as_slice());
    concat_chars(&mut out, chars_of(") VALUES ").as_slice());
    concat_chars(&mut out, join_chars(&parts, &[',', ' ']).as_slice());
    let ghost expected = "INSERT INTO "@ + table@ + seq![' ', '('] + join(cv, seq![',', ' '])
        + ") VALUES "@ + join(
        rows.map_values(|r: ValueV| row_sql(cv, object_of(r))),
        seq![',', ' '],
    );
    assert(out@ =~= expected);
    Ok(string_of(out.as_slice()))
}

// ---------------------------------------------------------------------
// Whether a table exists
// ---------------------------------------------------------------------

/// What `Display` writes for the error of `String::from_utf8` on bytes
/// that are no valid UTF-8.
pub uninterp spec fn utf8_error_text(bytes: Seq<u8>) -> Seq<char>;

/// `String::from_utf8`: the characters that the bytes encode where they
/// are valid UTF-8, else the `to_string` of the error, which is
/// `utf8_error_text` of the bytes.
#[verifier::external_body]
pub(crate) fn utf8_decode(bytes: Vec<u8>) -> (r: Result<String, String>)
    ensures
        match r {
            Ok(s) => valid_utf8(bytes@) && s@ == decode_utf8(bytes@),
            Err(e) => !valid_utf8(bytes@) && e@ == utf8_error_text(bytes@),
        },
{
    match String::from_utf8(bytes) {
        Ok(s) => Ok(s),
        Err(e) => Err(e.to_string()),
    }
}

/// `s` with each single quote doubled.
pub open spec fn sql_escaped(s: Seq<char>) -> Seq<char> {
    replace_char(s, '\'', seq!['\'', '\''])
}

/// The query that counts the tables named `table_path`: `database.name`
/// where the path has exactly one dot, else a name in the current
/// database.
pub open spec fn table_exists_sql(table_path: Seq<char>) -> Seq<char> {
    let parts = split_char(table_path, '.');
    if parts.len() == 2 {
        "SELECT count() FROM system.tables WHERE database = '"@ + sql_escaped(parts[0])
            + "' AND name = '"@ + sql_escaped(parts[1]) + "' FORMAT TabSeparated"@
    } else {
        "SELECT count() FROM system.tables WHERE database = currentDatabase() AND name = '"@
            + sql_escaped(table_path) + "' FORMAT TabSeparated"@
    }
}

pub open spec fn msg_metadata_not_utf8() -> Seq<char> {
    "Не удалось распарсить ответ системы метаданных как UTF-8"@
}

/// The answer of the count query: the table exists exactly when the
/// trimmed text is `1`.
pub open spec fn table_exists_result(bytes: Seq<u8>) -> Result<bool, Seq<char>> {
    if valid_utf8(bytes) {
        Ok(trim(decode_utf8(bytes)) == seq!['1'])
    } else {
        Err(msg_metadata_not_utf8())
    }
}

fn escaped_chars(cs: &[char]) -> (out: Vec<char>)
    ensures
        out@ == sql_escaped(cs@),
{
    let q = ['\'', '\''];
    assert(q@ =~= seq!['\'', '\'']);
    replace_chars(cs, '\'', &q)
}

/// The query that `check_table_exists` sends.
pub fn table_exists_query(table_path: &str) -> (q: String)
    ensures
        q@ == table_exists_sql(table_path@),
{
    let cs = chars_of(table_path);
    let parts = split_chars(cs.as_slice(), '.');
    let mut out: Vec<char>;
    if parts.len() == 2 {
        out = chars_of("SELECT count() FROM system.tables WHERE database = '");
        concat_chars(&mut out, escaped_chars(parts[0].as_slice()).as_slice());
        concat_chars(&mut out, chars_of("' AND name = '").as_slice());
        concat_chars(&mut out, escaped_chars(parts[1].as_slice()).as_slice());
    } else {
        out = chars_of(
            "SELECT count() FROM system.tables WHERE database = currentDatabase() AND name = '",
        );
        concat_chars(&mut out, escaped_chars(cs.as_slice()).as_slice());
    }
    concat_chars(&mut out, chars_of("' FORMAT TabSeparated").as_slice());
    string_of(out.as_slice())
}

/// The answer of `check_table_exists` from the bytes that the count query
/// returned.
pub fn table_exists_answer(bytes: Vec<u8>) -> (r: Result<bool, String>)
    ensures
        match r {
            Ok(b) => table_exists_result(bytes@) == Ok::<bool, Seq<char>>(b),
            Err(e) => table_exists_result(bytes@) == Err::<bool, Seq<char>>(e@),
        },
{
    let ghost bv = bytes@;
    match utf8_decode(bytes) {
        Ok(text) => {
            let t = trim_ws(chars_of(text.as_str()).as_slice());
            let one = t.len() == 1 && t[0] == '1';
            assert(one == (t@ =~= seq!['1']));
            Ok(one)
        },
        Err(_) => Err("Не удалось распарсить ответ системы метаданных как UTF-8".to_string()),
    }
}

} // verus!
