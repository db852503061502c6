//! Localization tables: from the rows of a table file to the entries that
//! the instance holds, and their JSON text.
//!
//! The first row of a table names the columns. The columns `Key`,
//! `Context`, `Example` and `Source` are the fixed fields of an entry;
//! every other column is a translation, by the name of its column.

use vstd::prelude::*;
use vstd::string::StringExecFns;
use crate::path::{str_eq, texts};

verus! {

/// The rows that the `csv` crate reads from the bytes of a table, each row
/// with its fields in order, the first row included; or the message of the
/// error with which it refuses them.
pub uninterp spec fn csv_table(bytes: Seq<u8>) -> Result<Seq<Seq<Seq<char>>>, Seq<char>>;

/// The JSON text in which `serde_json` writes a string: the string between
/// quotes, with what JSON asks to be escaped escaped.
pub uninterp spec fn json_quoted(text: Seq<char>) -> Seq<char>;

/// The texts of the fields of a list of rows.
pub open spec fn rows_view(rows: Seq<Vec<String>>) -> Seq<Seq<Seq<char>>> {
    Seq::new(rows.len(), |i: int| texts(rows[i]@))
}

/// The view of what reading a table gave.
pub open spec fn table_view(r: Result<Vec<Vec<String>>, String>) -> Result<
    Seq<Seq<Seq<char>>>,
    Seq<char>,
> {
    match r {
        Ok(rows) => Ok(rows_view(rows@)),
        Err(message) => Err(message@),
    }
}

/// Reads the rows of a table with `csv::Reader::records`, the reader built
/// without a header row so that the first row is among the rows. Gives the
/// rows as the crate reads them, or the text of the crate's error; rows of
/// unequal lengths are such an error.
#[verifier::external_body]
fn read_csv_table(bytes: &Vec<u8>) -> (r: Result<Vec<Vec<String>>, String>)
    ensures
        table_view(r) == csv_table(bytes@),
{
    let mut reader = csv::ReaderBuilder::new().has_headers(false).from_reader(bytes.as_slice());
    let mut rows: Vec<Vec<String>> = Vec::new();
    for record in reader.records() {
        match record {
            Ok(record) => rows.push(record.iter().map(String::from).collect()),
            Err(error) => return Err(error.to_string()),
        }
    }
    Ok(rows)
}

/// Writes a string as JSON text with `serde_json::to_string`, which does
/// not fail on a string.
#[verifier::external_body]
fn quote_json(text: &str) -> (r: String)
    ensures
        r@ == json_quoted(text@),
{
    match serde_json::to_string(text) {
        Ok(quoted) => quoted,
        Err(_) => String::new(),
    }
}

/// A row of a localization table as the table file holds it: the four
/// fixed columns, and every other column by its name.
#[derive(Debug, PartialEq, Eq)]
pub struct LocalizationEntryCsv {
    pub key: String,
    pub context: String,
    pub example: String,
    pub source: String,
    pub values: Vec<(String, String)>,
}

/// A row of a localization table as the instance holds it: the other
/// columns gathered under `values`.
#[derive(Debug, PartialEq, Eq)]
pub struct LocalizationEntryJson {
    pub key: String,
    pub context: String,
    pub example: String,
    pub source: String,
    pub values: Vec<(String, String)>,
}

/// What an entry holds.
pub struct EntryView {
    pub key: Seq<char>,
    pub context: Seq<char>,
    pub example: Seq<char>,
    pub source: Seq<char>,
    pub values: Seq<(Seq<char>, Seq<char>)>,
}

/// The texts of a list of pairs of strings.
pub open spec fn pair_texts(v: Seq<(String, String)>) -> Seq<(Seq<char>, Seq<char>)> {
    Seq::new(v.len(), |i: int| (v[i].0@, v[i].1@))
}

impl View for LocalizationEntryCsv {
    type V = EntryView;

    open spec fn view(&self) -> EntryView {
        EntryView {
            key: self.key@,
            context: self.context@,
            example: self.example@,
            source: self.source@,
            values: pair_texts(self.values@),
        }
    }
}

impl View for LocalizationEntryJson {
    type V = EntryView;

    open spec fn view(&self) -> EntryView {
        EntryView {
            key: self.key@,
            context: self.context@,
            example: self.example@,
            source: self.source@,
            values: pair_texts(self.values@),
        }
    }
}

impl LocalizationEntryCsv {
    /// Turns the row into the form that the instance holds.
    pub fn to_json(self) -> (r: LocalizationEntryJson)
        ensures
            r@ == self@,
    {
        LocalizationEntryJson {
            key: self.key,
            context: self.context,
            example: self.example,
            source: self.source,
            values: self.values,
        }
    }
}

/// Index of the first column at or after `from` that is named `name`, or
/// `-1`.
pub open spec fn column_from(header: Seq<Seq<char>>, name: Seq<char>, from: int) -> int
    decreases header.len() - from,
{
    if from < 0 || from >= header.len() {
        -1
    } else if header[from] == name {
        from
    } else {
        column_from(header, name, from + 1)
    }
}

/// The field of `row` in the column `j`: empty where the row has no such
/// field.
pub open spec fn cell(row: Seq<Seq<char>>, j: int) -> Seq<char> {
    if 0 <= j < row.len() {
        row[j]
    } else {
        Seq::empty()
    }
}

/// Whether `name` is the name of one of the fixed columns.
pub open spec fn is_fixed(name: Seq<char>) -> bool {
    name == "Key"@ || name == "Context"@ || name == "Example"@ || name == "Source"@
}

/// The translations of `row`: for each of the first `upto` columns that is
/// not fixed, in order, the name of the column and the row's field in it.
pub open spec fn translations(header: Seq<Seq<char>>, row: Seq<Seq<char>>, upto: int) -> Seq<
    (Seq<char>, Seq<char>),
>
    decreases upto,
{
    if 0 < upto <= header.len() {
        let before = translations(header, row, upto - 1);
        if is_fixed(header[upto - 1]) {
            before
        } else {
            before.push((header[upto - 1], cell(row, upto - 1)))
        }
    } else {
        Seq::empty()
    }
}

/// The entry that `row` stands for under the header `header`.
pub open spec fn entry_of(header: Seq<Seq<char>>, row: Seq<Seq<char>>) -> EntryView {
    EntryView {
        key: cell(row, column_from(header, "Key"@, 0)),
        context: cell(row, column_from(header, "Context"@, 0)),
        example: cell(row, column_from(header, "Example"@, 0)),
        source: cell(row, column_from(header, "Source"@, 0)),
        values: translations(header, row, header.len() as int),
    }
}

/// Whether the header names each of the fixed columns.
pub open spec fn has_fixed_columns(header: Seq<Seq<char>>) -> bool {
    column_from(header, "Key"@, 0) >= 0 && column_from(header, "Context"@, 0) >= 0 && column_from(
        header,
        "Example"@,
        0,
    ) >= 0 && column_from(header, "Source"@, 0) >= 0
}

/// The entries that the rows of a table stand for: one for each row after
/// the first. No entries where the table has no row after the first;
/// nothing where it has and the first row lacks a fixed column.
pub open spec fn table_entries(rows: Seq<Seq<Seq<char>>>) -> Option<Seq<EntryView>> {
    if rows.len() <= 1 {
        Some(Seq::empty())
    } else if !has_fixed_columns(rows[0]) {
        None
    } else {
        Some(Seq::new((rows.len() - 1) as nat, |i: int| entry_of(rows[0], rows[i + 1])))
    }
}

/// Returns the index of the first column named `name`.
pub fn find_column(header: &Vec<String>, name: &str) -> (r: Option<usize>)
    ensures
        match r {
            Some(j) => j < header.len() && j as int == column_from(texts(header@), name@, 0),
            None => column_from(texts(header@), name@, 0) == -1,
        },
{
    let mut j: usize = 0;
    while j < header.len()
        invariant
            0 <= j <= header.len(),
            column_from(texts(header@), name@, j as int) == column_from(texts(header@), name@, 0),
        decreases header.len() - j,
    {
        assert(texts(header@)[j as int] == header@[j as int]@);
        if str_eq(header[j].as_str(), name) {
            return Some(j);
        }
        j = j + 1;
    }
    None
}

/// Returns the field of `row` in the column `column`, where there is such
/// a column; an empty text where there is not.
fn cell_at(row: &Vec<String>, column: Option<usize>) -> (r: String)
    ensures
        r@ == cell(
            texts(row@),
            match column {
                Some(j) => j as int,
                None => -1,
            },
        ),
{
    match column {
        Some(j) => {
            if j < row.len() {
                assert(texts(row@)[j as int] == row@[j as int]@);
                row[j].clone()
            } else {
                String::new()
            }
        },
        None => String::new(),
    }
}

/// Whether `name` is the name of one of the fixed columns.
fn check_fixed(name: &str) -> (r: bool)
    ensures
        r == is_fixed(name@),
{
    str_eq(name, "Key") || str_eq(name, "Context") || str_eq(name, "Example") || str_eq(
        name,
        "Source",
    )
}

/// Makes the entry that `row` stands for under the header `header`.
pub fn make_entry(header: &Vec<String>, row: &Vec<String>) -> (r: LocalizationEntryCsv)
    ensures
        r@ == entry_of(texts(header@), texts(row@)),
{
    let mut values: Vec<(String, String)> = Vec::new();
    let mut j: usize = 0;
    assert(pair_texts(values@) =~= translations(texts(header@), texts(row@), 0));
    while j < header.len()
        invariant
            0 <= j <= header.len(),
            pair_texts(values@) == translations(texts(header@), texts(row@), j as int),
        decreases header.len() - j,
    {
        assert(texts(header@)[j as int] == header@[j as int]@);
        if !check_fixed(header[j].as_str()) {
            let ghost before = pair_texts(values@);
            let field = cell_at(row, Some(j));
            values.push((header[j].clone(), field));
            assert(pair_texts(values@) =~= before.push(
                (header@[j as int]@, cell(texts(row@), j as int)),
            ));
        }
        j = j + 1;
    }
    LocalizationEntryCsv {
        key: cell_at(row, find_column(header, "Key")),
        context: cell_at(row, find_column(header, "Context")),
        example: cell_at(row, find_column(header, "Example")),
        source: cell_at(row, find_column(header, "Source")),
        values,
    }
}

/// The views of a list of entries.
pub open spec fn entry_views(v: Seq<LocalizationEntryJson>) -> Seq<EntryView> {
    Seq::new(v.len(), |i: int| v[i]@)
}

/// Makes the entries that the rows of a table stand for.
pub fn entries_from_rows(rows: &Vec<Vec<String>>) -> (r: Option<Vec<LocalizationEntryJson>>)
    ensures
        match r {
            Some(entries) => table_entries(rows_view(rows@)) == Some(entry_views(entries@)),
            None => table_entries(rows_view(rows@)).is_none(),
        },
{
    let mut entries: Vec<LocalizationEntryJson> = Vec::new();
    if rows.len() <= 1 {
        assert(entry_views(entries@) =~= Seq::<EntryView>::empty());
        return Some(entries);
    }
    let header = &rows[0];
    assert(rows_view(rows@)[0] == texts(header@));
    if find_column(header, "Key").is_none() || find_column(header, "Context").is_none()
        || find_column(header, "Example").is_none() || find_column(header, "Source").is_none() {
        return None;
    }
    let mut i: usize = 1;
    while i < rows.len()
        invariant
            1 <= i <= rows.len(),
            header == &rows[0],
            entries.len() == i - 1,
            forall|k: int|
                0 <= k < i - 1 ==> (#[trigger] entries@[k])@ == entry_of(
                    texts(rows@[0]@),
                    texts(rows@[k + 1]@),
                ),
        decreases rows.len() - i,
    {
        entries.push(make_entry(header, &rows[i]).to_json());
        i = i + 1;
    }
    proof {
        let wanted = table_entries(rows_view(rows@))->0;
        assert forall|k: int| 0 <= k < wanted.len() implies wanted[k] == entry_views(entries@)[k] by {
            assert(rows_view(rows@)[k + 1] == texts(rows@[k + 1]@));
        }
        assert(wanted =~= entry_views(entries@));
    }
    Some(entries)
}

/// The JSON text of the first `upto` translations, with a comma between
/// each two.
pub open spec fn values_json(values: Seq<(Seq<char>, Seq<char>)>, upto: int) -> Seq<char>
    decreases upto,
{
    if 0 < upto <= values.len() {
        let pair = json_quoted(values[upto - 1].0) + ":"@ + json_quoted(values[upto - 1].1);
        if upto == 1 {
            pair
        } else {
            values_json(values, upto - 1) + ","@ + pair
        }
    } else {
        Seq::empty()
    }
}

/// The JSON text of an entry: an object with the fixed fields, and the
/// translations as an object under `values`.
pub open spec fn entry_json(e: EntryView) -> Seq<char> {
    "{\"key\":"@ + json_quoted(e.key) + ",\"context\":"@ + json_quoted(e.context)
        + ",\"example\":"@ + json_quoted(e.example) + ",\"source\":"@ + json_quoted(e.source)
        + ",\"values\":{"@ + values_json(e.values, e.values.len() as int) + "}}"@
}

/// The JSON text of the first `upto` entries, with a comma between each
/// two.
pub open spec fn entries_json(entries: Seq<EntryView>, upto: int) -> Seq<char>
    decreases upto,
{
    if 0 < upto <= entries.len() {
        if upto == 1 {
            entry_json(entries[upto - 1])
        } else {
            entries_json(entries, upto - 1) + ","@ + entry_json(entries[upto - 1])
        }
    } else {
        Seq::empty()
    }
}

/// The JSON text of a table: the list of its entries.
pub open spec fn table_json(entries: Seq<EntryView>) -> Seq<char> {
    "["@ + entries_json(entries, entries.len() as int) + "]"@
}

/// Writes the translations of an entry as JSON text.
fn encode_values(values: &Vec<(String, String)>) -> (r: String)
    ensures
        r@ == values_json(pair_texts(values@), values@.len() as int),
{
    let mut out = String::new();
    let mut k: usize = 0;
    while k < values.len()
        invariant
            0 <= k <= values.len(),
            out@ == values_json(pair_texts(values@), k as int),
        decreases values.len() - k,
    {
        let mut pair = quote_json(values[k].0.as_str());
        pair.append(":");
        pair.append(quote_json(values[k].1.as_str()).as_str());
        assert(pair_texts(values@)[k as int] == (values@[k as int].0@, values@[k as int].1@));
        if k > 0 {
            out.append(",");
            out.append(pair.as_str());
        } else {
            assert(out@ + pair@ =~= pair@);
            out.append(pair.as_str());
        }
        k = k + 1;
    }
    out
}

/// Writes an entry as JSON text.
pub fn encode_entry(entry: &LocalizationEntryJson) -> (r: String)
    ensures
        r@ == entry_json(entry@),
{
    let mut out = String::from_str("{\"key\":");
    out.append(quote_json(entry.key.as_str()).as_str());
    out.append(",\"context\":");
    out.append(quote_json(entry.context.as_str()).as_str());
    out.append(",\"example\":");
    out.append(quote_json(entry.example.as_str()).as_str());
    out.append(",\"source\":");
    out.append(quote_json(entry.source.as_str()).as_str());
    out.append(",\"values\":{");
    out.append(encode_values(&entry.values).as_str());
    out.append("}}");
    out
}

/// Writes the entries of a table as JSON text.
pub fn encode_table(entries: &Vec<LocalizationEntryJson>) -> (r: String)
    ensures
        r@ == table_json(entry_views(entries@)),
{
    let mut list = String::new();
    let mut k: usize = 0;
    while k < entries.len()
        invariant
            0 <= k <= entries.len(),
            list@ == entries_json(entry_views(entries@), k as int),
        decreases entries.len() - k,
    {
        let one = encode_entry(&entries[k]);
        assert(entry_views(entries@)[k as int] == entries@[k as int]@);
        if k > 0 {
            list.append(",");
            list.append(one.as_str());
        } else {
            assert(list@ + one@ =~= one@);
            list.append(one.as_str());
        }
        k = k + 1;
    }
    let mut out = String::from_str("[");
    out.append(list.as_str());
    out.append("]");
    out
}

/// The message for a table whose first row lacks a fixed column.
pub open spec fn missing_column() -> Seq<char> {
    "the table lacks one of the columns Key, Context, Example and Source"@
}

/// The JSON text of the entries of the table with the bytes `bytes`, or the
/// message that says why the bytes are no table.
pub open spec fn table_contents(bytes: Seq<u8>) -> Result<Seq<char>, Seq<char>> {
    match csv_table(bytes) {
        Err(message) => Err(message),
        Ok(rows) => match table_entries(rows) {
            None => Err(missing_column()),
            Some(entries) => Ok(table_json(entries)),
        },
    }
}

/// Reads the bytes of a table and writes its entries as JSON text.
pub fn read_table(bytes: &Vec<u8>) -> (r: Result<String, String>)
    ensures
        match r {
            Ok(json) => table_contents(bytes@) == Ok::<Seq<char>, Seq<char>>(json@),
            Err(message) => table_contents(bytes@) == Err::<Seq<char>, Seq<char>>(message@),
        },
{
    let rows = match read_csv_table(bytes) {
        Ok(rows) => rows,
        Err(message) => {
            return Err(message);
        },
    };
    match entries_from_rows(&rows) {
        Some(entries) => Ok(encode_table(&entries)),
        None => Err(
            "the table lacks one of the columns Key, Context, Example and Source".to_owned(),
        ),
    }
}

} // verus!
