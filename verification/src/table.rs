//! The table in which prompts are handed out and taken in: its columns,
//! the row of a prompt, and what a row that comes in holds.

use crate::capture::{derive_title, title_of};
use crate::chars::CharClass;
use crate::extract::table_of;
use crate::json::{json_or_null, normal_json};
use crate::storage::{Analysis, NewAnalysis, NewPrompt, Prompt};
use crate::text::{
    chars_of, join, join_with, rows, rows_of, same, split, split_class, string_of, texts,
    texts_of, trim, trim_class, without_empty,
};
use vstd::prelude::*;

verus! {

/// The columns of the table, in their order.
pub open spec fn columns() -> Seq<Seq<char>> {
    seq![
        "id"@,
        "title"@,
        "body"@,
        "language"@,
        "model_hint"@,
        "metadata"@,
        "created_at"@,
        "updated_at"@,
        "latest_summary"@,
        "latest_tags"@,
        "classification"@,
    ]
}

/// The summary of an analysis that came in without one.
pub open spec fn imported_summary() -> Seq<char> {
    "Imported"@
}

/// The text on one line: every line feed and carriage return is a blank.
pub open spec fn flattened(text: Seq<char>) -> Seq<char> {
    Seq::new(
        text.len(),
        |i: int|
            if text[i] == '\n' || text[i] == '\r' {
                ' '
            } else {
                text[i]
            },
    )
}

/// The text of an optional string, empty if there is none.
pub open spec fn text_or_empty(value: Option<String>) -> Seq<char> {
    match value {
        Some(s) => s@,
        None => Seq::empty(),
    }
}

/// Each piece without the white space at its ends.
pub open spec fn trimmed_all(parts: Seq<Seq<char>>) -> Seq<Seq<char>> {
    Seq::new(parts.len(), |i: int| trim(parts[i], CharClass::Whitespace))
}

/// The tags of a cell: its pieces between vertical bars, each without the
/// white space at its ends, the empty ones left out. An empty cell has none.
pub open spec fn tags_of(cell: Seq<char>) -> Seq<Seq<char>> {
    if cell.len() == 0 {
        Seq::empty()
    } else {
        without_empty(trimmed_all(split(cell, CharClass::TagBreak)))
    }
}

/// The cell of a tag list: the tags with a vertical bar between each two.
pub open spec fn tag_cell(tags: Seq<Seq<char>>) -> Seq<char> {
    join(tags, seq!['|'])
}

/// The row of a prompt with its latest analysis, if it has one.
pub open spec fn row_of(prompt: Prompt, latest: Option<Analysis>) -> Seq<Seq<char>> {
    seq![
        prompt.id@,
        prompt.title@,
        flattened(prompt.body@),
        text_or_empty(prompt.language),
        text_or_empty(prompt.model_hint),
        prompt.metadata@,
        prompt.created_at@,
        prompt.updated_at@,
        match latest {
            Some(analysis) => analysis.summary@,
            None => Seq::empty(),
        },
        match latest {
            Some(analysis) => tag_cell(texts(analysis.tags@)),
            None => Seq::empty(),
        },
        match latest {
            Some(analysis) => analysis.classification@,
            None => crate::storage::json_null(),
        },
    ]
}

/// The position of the first header that is `name`, from `from` on.
pub open spec fn column_from(headers: Seq<Seq<char>>, name: Seq<char>, from: int) -> Option<int>
    decreases headers.len() - from,
{
    if from < 0 || from >= headers.len() {
        None
    } else if headers[from] == name {
        Some(from)
    } else {
        column_from(headers, name, from + 1)
    }
}

/// The cell of a record under the column `name`, if the table has that
/// column and the record reaches that far.
pub open spec fn cell(headers: Seq<Seq<char>>, record: Seq<Seq<char>>, name: Seq<char>) -> Option<
    Seq<char>,
> {
    match column_from(headers, name, 0) {
        Some(i) => if i < record.len() {
            Some(record[i])
        } else {
            None
        },
        None => None,
    }
}

/// The cell of a record under the column `name`, or `default` if there is
/// none.
pub open spec fn cell_or(
    headers: Seq<Seq<char>>,
    record: Seq<Seq<char>>,
    name: Seq<char>,
    default: Seq<char>,
) -> Seq<char> {
    match cell(headers, record, name) {
        Some(found) => found,
        None => default,
    }
}

/// The body of a row that comes in: its cell without the white space at its
/// ends.
pub open spec fn body_of(headers: Seq<Seq<char>>, record: Seq<Seq<char>>) -> Seq<char> {
    trim(cell_or(headers, record, "body"@, Seq::empty()), CharClass::Whitespace)
}

/// What `csv::Reader::into_records` yields for a table as text when the
/// first line counts as a record like the others: for each line in turn its
/// cells, or what the reader says against it.
pub uninterp spec fn csv_records(data: Seq<char>) -> Seq<Result<Seq<Seq<char>>, Seq<char>>>;

/// What `csv::Writer::write_record` writes for one record: its line with
/// the line's end, or what the writer says against it.
pub uninterp spec fn csv_line(record: Seq<Seq<char>>) -> Result<Seq<u8>, Seq<char>>;

/// What a row holds once it is read.
#[derive(Debug, Clone)]
pub struct ImportedRow {
    pub title: String,
    pub body: String,
    pub language: Option<String>,
    pub model_hint: Option<String>,
    /// The metadata as JSON text; null if the cell holds no JSON.
    pub metadata: String,
    pub summary: String,
    pub tags: Vec<String>,
    /// The classification as JSON text; null if the cell holds no JSON.
    pub classification: String,
}

impl ImportedRow {
    /// Whether this is what the record holds under the headers.
    pub open spec fn reads(self, headers: Seq<Seq<char>>, record: Seq<Seq<char>>) -> bool {
        &&& self.body@ == body_of(headers, record)
        &&& self.title@ == cell_or(headers, record, "title"@, title_of(body_of(headers, record)))
        &&& crate::analysis::text_of(self.language) == cell(headers, record, "language"@)
        &&& crate::analysis::text_of(self.model_hint) == cell(headers, record, "model_hint"@)
        &&& self.metadata@ == json_or_null(cell_or(headers, record, "metadata"@, Seq::empty()))
        &&& self.summary@ == trim(
            cell_or(headers, record, "latest_summary"@, Seq::empty()),
            CharClass::Whitespace,
        )
        &&& texts(self.tags@) == tags_of(cell_or(headers, record, "latest_tags"@, Seq::empty()))
        &&& self.classification@ == json_or_null(
            cell_or(headers, record, "classification"@, crate::storage::json_null()),
        )
    }

    /// Whether the row brings an analysis along: a summary, a tag, or a
    /// classification other than null.
    pub open spec fn brings_analysis(self) -> bool {
        self.summary@.len() > 0 || self.tags@.len() > 0 || self.classification@
            != crate::storage::json_null()
    }
}

/// The columns of the table.
pub fn export_columns() -> (out: Vec<String>)
    ensures
        texts(out@) == columns(),
{
    let list: Vec<&'static str> = vec![
        "id",
        "title",
        "body",
        "language",
        "model_hint",
        "metadata",
        "created_at",
        "updated_at",
        "latest_summary",
        "latest_tags",
        "classification",
    ];
    let table = table_of(&list);
    texts_of(&table)
}

/// Puts a text on one line.
pub fn flatten(text: &str) -> (out: String)
    ensures
        out@ == flattened(text@),
{
    let chars = chars_of(text);
    let mut flat: Vec<char> = Vec::new();
    let mut i: usize = 0;
    while i < chars.len()
        invariant
            i <= chars.len(),
            flat.len() == i,
            forall|k: int|
                0 <= k < i ==> flat@[k] == if chars@[k] == '\n' || chars@[k] == '\r' {
                    ' '
                } else {
                    chars@[k]
                },
        decreases chars.len() - i,
    {
        let c = chars[i];
        if c == '\n' || c == '\r' {
            flat.push(' ');
        } else {
            flat.push(c);
        }
        i += 1;
    }
    string_of(&flat)
}

/// Writes a tag list into a cell.
pub fn join_tags(tags: &Vec<String>) -> (out: String)
    ensures
        out@ == tag_cell(texts(tags@)),
{
    let list = rows_of(tags);
    let bar = chars_of("|");
    proof {
        reveal_strlit("|");
        assert(bar@ =~= seq!['|']);
    }
    let joined = join_with(&list, &bar);
    string_of(&joined)
}

/// Reads the tag list of a cell.
pub fn split_tags(cell: &str) -> (out: Vec<String>)
    ensures
        texts(out@) == tags_of(cell@),
{
    let chars = chars_of(cell);
    let mut tags: Vec<Vec<char>> = Vec::new();
    if chars.len() == 0 {
        return texts_of(&tags);
    }
    let pieces = split_class(&chars, CharClass::TagBreak);
    let mut i: usize = 0;
    let ghost cleaned = trimmed_all(rows(pieces@));
    while i < pieces.len()
        invariant
            i <= pieces.len(),
            cleaned == trimmed_all(rows(pieces@)),
            rows(tags@) == without_empty(cleaned.take(i as int)),
        decreases pieces.len() - i,
    {
        assert(cleaned.take(i + 1).drop_last() == cleaned.take(i as int));
        let tag = trim_class(&pieces[i], CharClass::Whitespace);
        if tag.len() > 0 {
            proof {
                crate::text::lemma_rows_push(tags@, tag);
            }
            tags.push(tag);
        }
        i += 1;
    }
    assert(cleaned.take(i as int) == cleaned);
    texts_of(&tags)
}

fn text_or_default(value: &Option<String>) -> (out: String)
    ensures
        out@ == text_or_empty(*value),
{
    match value {
        Some(s) => s.clone(),
        None => String::new(),
    }
}

/// The row of a prompt with its latest analysis, if it has one.
pub fn export_row(prompt: &Prompt, latest: Option<&Analysis>) -> (out: Vec<String>)
    ensures
        texts(out@) == row_of(
            *prompt,
            match latest {
                Some(analysis) => Some(*analysis),
                None => None,
            },
        ),
{
    let mut out: Vec<String> = Vec::new();
    out.push(prompt.id.clone());
    out.push(prompt.title.clone());
    out.push(flatten(prompt.body.as_str()));
    out.push(text_or_default(&prompt.language));
    out.push(text_or_default(&prompt.model_hint));
    out.push(prompt.metadata.clone());
    out.push(prompt.created_at.clone());
    out.push(prompt.updated_at.clone());
    match latest {
        Some(analysis) => {
            out.push(analysis.summary.clone());
            out.push(join_tags(&analysis.tags));
            out.push(analysis.classification.clone());
        },
        None => {
            out.push(String::new());
            out.push(String::new());
            out.push("null".to_owned());
        },
    }
    assert(texts(out@) =~= row_of(
        *prompt,
        match latest {
            Some(analysis) => Some(*analysis),
            None => None,
        },
    ));
    out
}

/// The position of the column `name`.
pub fn column_index(headers: &Vec<String>, name: &str) -> (found: Option<usize>)
    ensures
        match found {
            Some(i) => column_from(texts(headers@), name@, 0) == Some(i as int) && i < headers.len(),
            None => column_from(texts(headers@), name@, 0) is None,
        },
{
    let wanted = chars_of(name);
    let mut i: usize = 0;
    while i < headers.len()
        invariant
            i <= headers.len(),
            wanted@ == name@,
            column_from(texts(headers@), name@, 0) == column_from(texts(headers@), name@, i as int),
        decreases headers.len() - i,
    {
        let header = chars_of(headers[i].as_str());
        if same(&header, &wanted) {
            return Some(i);
        }
        i += 1;
    }
    None
}

/// The cell of a record under the column `name`.
pub fn cell_of(headers: &Vec<String>, record: &Vec<String>, name: &str) -> (found: Option<String>)
    ensures
        crate::analysis::text_of(found) == cell(texts(headers@), texts(record@), name@),
{
    match column_index(headers, name) {
        Some(i) => {
            if i < record.len() {
                Some(record[i].clone())
            } else {
                None
            }
        },
        None => None,
    }
}

fn trimmed_text(text: &String) -> (out: String)
    ensures
        out@ == trim(text@, CharClass::Whitespace),
{
    let chars = chars_of(text.as_str());
    let cleaned = trim_class(&chars, CharClass::Whitespace);
    string_of(&cleaned)
}

fn cell_or_empty(headers: &Vec<String>, record: &Vec<String>, name: &str) -> (out: String)
    ensures
        out@ == cell_or(texts(headers@), texts(record@), name@, Seq::empty()),
{
    match cell_of(headers, record, name) {
        Some(found) => found,
        None => String::new(),
    }
}

/// Reads a record under the headers of its table. A record without a body
/// holds nothing.
pub fn read_row(headers: &Vec<String>, record: &Vec<String>) -> (row: Option<ImportedRow>)
    ensures
        body_of(texts(headers@), texts(record@)).len() == 0 <==> row is None,
        row matches Some(found) ==> found.reads(texts(headers@), texts(record@)),
{
    let body = trimmed_text(&cell_or_empty(headers, record, "body"));
    if body.as_str().is_empty() {
        return None;
    }
    let title = match cell_of(headers, record, "title") {
        Some(found) => found,
        None => derive_title(body.as_str()),
    };
    let language = cell_of(headers, record, "language");
    let model_hint = cell_of(headers, record, "model_hint");
    let metadata = normal_json(cell_or_empty(headers, record, "metadata").as_str());
    let summary = trimmed_text(&cell_or_empty(headers, record, "latest_summary"));
    let tags = split_tags(cell_or_empty(headers, record, "latest_tags").as_str());
    let classification = match cell_of(headers, record, "classification") {
        Some(found) => normal_json(found.as_str()),
        None => normal_json("null"),
    };
    Some(ImportedRow { title, body, language, model_hint, metadata, summary, tags, classification })
}

impl ImportedRow {
    /// The prompt that the row brings.
    pub fn prompt(&self) -> (prompt: NewPrompt)
        ensures
            prompt.title@ == self.title@,
            prompt.body@ == self.body@,
            crate::analysis::text_of(prompt.language) == crate::analysis::text_of(self.language),
            crate::analysis::text_of(prompt.model_hint) == crate::analysis::text_of(
                self.model_hint,
            ),
            prompt.metadata@ == self.metadata@,
    {
        NewPrompt {
            title: self.title.clone(),
            body: self.body.clone(),
            language: self.language.clone(),
            model_hint: self.model_hint.clone(),
            metadata: self.metadata.clone(),
        }
    }

    /// The analysis that the row brings for the prompt stored under
    /// `prompt_id`. There is one if the row has a summary, a tag, or a
    /// classification other than null; a missing summary reads `Imported`.
    pub fn analysis(&self, prompt_id: String) -> (analysis: Option<NewAnalysis>)
        ensures
            self.brings_analysis() <==> analysis is Some,
            analysis matches Some(found) ==> {
                &&& found.prompt_id == prompt_id
                &&& found.summary@ == if self.summary@.len() == 0 {
                    imported_summary()
                } else {
                    self.summary@
                }
                &&& texts(found.tags@) == texts(self.tags@)
                &&& found.classification@ == self.classification@
                &&& found.qwen_model is None
            },
    {
        let null = chars_of("null");
        let given = chars_of(self.classification.as_str());
        if self.summary.as_str().is_empty() && self.tags.len() == 0 && same(&given, &null) {
            return None;
        }
        let summary = if self.summary.as_str().is_empty() {
            "Imported".to_owned()
        } else {
            self.summary.clone()
        };
        let tags = texts_of(&rows_of(&self.tags));
        Some(
            NewAnalysis {
                prompt_id,
                summary,
                tags,
                classification: self.classification.clone(),
                qwen_model: None,
            },
        )
    }
}

/// A prompt with its latest analysis, as it is handed out.
pub struct Exported {
    pub prompt: Prompt,
    pub latest: Option<Analysis>,
}

/// What a table that comes in holds: for each record behind the headers, up
/// to the first that the reader refuses, the row that it holds, if any; and
/// what the reader said against the record at which it stopped.
pub struct ImportPlan {
    pub entries: Vec<Option<ImportedRow>>,
    pub failure: Option<String>,
}

/// The records of a parsed table as texts.
pub open spec fn parsed(records: Seq<Result<Vec<String>, String>>) -> Seq<
    Result<Seq<Seq<char>>, Seq<char>>,
> {
    Seq::new(
        records.len(),
        |i: int|
            match records[i] {
                Ok(cells) => Ok(texts(cells@)),
                Err(message) => Err(message@),
            },
    )
}

/// The position of the first record from `from` on that the reader refused;
/// the number of records if it refused none.
pub open spec fn first_refused(records: Seq<Result<Seq<Seq<char>>, Seq<char>>>, from: int) -> int
    decreases records.len() - from,
{
    if from < 0 || from >= records.len() {
        records.len() as int
    } else if records[from] is Err {
        from
    } else {
        first_refused(records, from + 1)
    }
}

impl ImportPlan {
    /// Whether this is what the records hold. The first record gives the
    /// headers. The entries stand for the records behind it, in their
    /// order, up to the first that the reader refused.
    pub open spec fn reads(self, records: Seq<Result<Seq<Seq<char>>, Seq<char>>>) -> bool {
        let stop = first_refused(records, 0);
        &&& crate::analysis::text_of(self.failure) == if stop < records.len() {
            Some(records[stop]->Err_0)
        } else {
            None
        }
        &&& self.entries@.len() == if stop == 0 {
            0
        } else {
            stop - 1
        }
        &&& forall|i: int|
            0 <= i < self.entries@.len() ==> {
                let headers = records[0]->Ok_0;
                let record = records[i + 1]->Ok_0;
                &&& body_of(headers, record).len() == 0 <==> (#[trigger] self.entries@[i]) is None
                &&& self.entries@[i] matches Some(row) ==> row.reads(headers, record)
            }
    }
}

/// `csv::ReaderBuilder::from_reader` over the bytes of the text, with
/// `has_headers` off so that the first line is a record like the others, and
/// `into_records` over all of it: each record with its cells as strings, or
/// the reader's message against it.
#[verifier::external_body]
fn parse_records(data: &str) -> (records: Vec<Result<Vec<String>, String>>)
    ensures
        parsed(records@) == csv_records(data@),
{
    csv::ReaderBuilder::new()
        .has_headers(false)
        .from_reader(data.as_bytes())
        .into_records()
        .map(|read| match read {
            Ok(record) => Ok(record.iter().map(String::from).collect()),
            Err(error) => Err(error.to_string()),
        })
        .collect()
}

/// `csv::Writer::write_record` into an empty buffer, and `into_inner` for
/// what was written: the line of the record, or the writer's message.
#[verifier::external_body]
fn encode_record(record: &Vec<String>) -> (line: Result<Vec<u8>, String>)
    ensures
        match line {
            Ok(bytes) => csv_line(texts(record@)) == Ok::<Seq<u8>, Seq<char>>(bytes@),
            Err(message) => csv_line(texts(record@)) == Err::<Seq<u8>, Seq<char>>(message@),
        },
{
    let mut writer = csv::Writer::from_writer(Vec::new());
    match writer.write_record(record) {
        Ok(()) => writer.into_inner().map_err(|error| error.to_string()),
        Err(error) => Err(error.to_string()),
    }
}

/// Reads the records of a table: the first gives the headers, each of the
/// others a row, up to the first that the reader refused.
pub fn plan_import(records: &Vec<Result<Vec<String>, String>>) -> (plan: ImportPlan)
    ensures
        plan.reads(parsed(records@)),
{
    let mut entries: Vec<Option<ImportedRow>> = Vec::new();
    if records.len() == 0 {
        return ImportPlan { entries, failure: None };
    }
    let ghost all = parsed(records@);
    let headers = match &records[0] {
        Ok(cells) => cells,
        Err(message) => {
            return ImportPlan { entries, failure: Some(message.clone()) };
        },
    };
    let mut i: usize = 1;
    while i < records.len()
        invariant
            1 <= i <= records.len(),
            all == parsed(records@),
            all[0] == Ok::<Seq<Seq<char>>, Seq<char>>(texts(headers@)),
            first_refused(all, 0) == first_refused(all, i as int),
            entries@.len() == i - 1,
            forall|k: int|
                0 <= k < entries@.len() ==> {
                    let record = all[k + 1]->Ok_0;
                    &&& body_of(texts(headers@), record).len() == 0 <==> (
                    #[trigger] entries@[k]) is None
                    &&& entries@[k] matches Some(row) ==> row.reads(texts(headers@), record)
                },
        decreases records.len() - i,
    {
        match &records[i] {
            Ok(cells) => {
                entries.push(read_row(headers, cells));
            },
            Err(message) => {
                return ImportPlan { entries, failure: Some(message.clone()) };
            },
        }
        i += 1;
    }
    ImportPlan { entries, failure: None }
}

/// Reads a table that comes in as text.
pub fn import_table(data: &str) -> (plan: ImportPlan)
    ensures
        plan.reads(csv_records(data@)),
{
    let records = parse_records(data);
    plan_import(&records)
}

/// The mark that a table in UTF-8 starts with.
pub open spec fn byte_order_mark() -> Seq<u8> {
    seq![0xEFu8, 0xBBu8, 0xBFu8]
}

/// The records that a vector of rows holds.
pub open spec fn record_texts(records: Seq<Vec<String>>) -> Seq<Seq<Seq<char>>> {
    Seq::new(records.len(), |i: int| texts(records[i]@))
}

/// The lines that a vector of byte rows holds.
pub open spec fn line_bytes(lines: Seq<Vec<u8>>) -> Seq<Seq<u8>> {
    Seq::new(lines.len(), |i: int| lines[i]@)
}

/// The records of the table that is handed out: the columns, then the row
/// of each prompt.
pub open spec fn records_of(list: Seq<Exported>) -> Seq<Seq<Seq<char>>> {
    Seq::new(
        list.len() + 1,
        |i: int|
            if i == 0 {
                columns()
            } else {
                row_of(list[i - 1].prompt, list[i - 1].latest)
            },
    )
}

/// The line of each record; the first message of the writer if it refused
/// one.
pub open spec fn encoded(records: Seq<Seq<Seq<char>>>) -> Result<Seq<Seq<u8>>, Seq<char>>
    decreases records.len(),
{
    if records.len() == 0 {
        Ok(Seq::empty())
    } else {
        match encoded(records.drop_last()) {
            Err(message) => Err(message),
            Ok(lines) => match csv_line(records.last()) {
                Ok(line) => Ok(lines.push(line)),
                Err(message) => Err(message),
            },
        }
    }
}

/// The lines one behind the other.
pub open spec fn concat(lines: Seq<Seq<u8>>) -> Seq<u8>
    decreases lines.len(),
{
    if lines.len() == 0 {
        Seq::empty()
    } else {
        concat(lines.drop_last()) + lines.last()
    }
}

/// The table of the lines: the byte order mark, then the lines.
pub open spec fn framed(lines: Seq<Seq<u8>>) -> Seq<u8> {
    byte_order_mark() + concat(lines)
}

/// The table that is handed out, as bytes: the byte order mark, the line of
/// the columns, and the line of each prompt.
pub open spec fn table_bytes(list: Seq<Exported>) -> Result<Seq<u8>, Seq<char>> {
    match encoded(records_of(list)) {
        Ok(lines) => Ok(framed(lines)),
        Err(message) => Err(message),
    }
}

/// Appends the bytes of `tail` to `out`.
fn append_bytes(out: &mut Vec<u8>, tail: &Vec<u8>)
    ensures
        final(out)@ == old(out)@ + tail@,
{
    let mut i: usize = 0;
    while i < tail.len()
        invariant
            i <= tail.len(),
            out@ == old(out)@ + tail@.take(i as int),
        decreases tail.len() - i,
    {
        out.push(tail[i]);
        i += 1;
    }
}

/// The records of the table for the given prompts: the columns, then the
/// row of each prompt.
pub fn export_records(list: &Vec<Exported>) -> (records: Vec<Vec<String>>)
    ensures
        record_texts(records@) == records_of(list@),
{
    let mut records: Vec<Vec<String>> = Vec::new();
    records.push(export_columns());
    let mut i: usize = 0;
    while i < list.len()
        invariant
            i <= list.len(),
            records.len() == i + 1,
            texts(records@[0]@) == columns(),
            forall|k: int|
                1 <= k < records.len() ==> texts((#[trigger] records@[k])@) == row_of(
                    list@[k - 1].prompt,
                    list@[k - 1].latest,
                ),
        decreases list.len() - i,
    {
        let row = match &list[i].latest {
            Some(analysis) => export_row(&list[i].prompt, Some(analysis)),
            None => export_row(&list[i].prompt, None),
        };
        records.push(row);
        i += 1;
    }
    records
}

/// The line of each record, as the writer of the table writes it; its
/// message if it refuses a record.
pub fn encode_records(records: &Vec<Vec<String>>) -> (result: Result<Vec<Vec<u8>>, String>)
    ensures
        match result {
            Ok(lines) => encoded(record_texts(records@)) == Ok::<Seq<Seq<u8>>, Seq<char>>(
                line_bytes(lines@),
            ),
            Err(message) => encoded(record_texts(records@)) == Err::<Seq<Seq<u8>>, Seq<char>>(
                message@,
            ),
        },
{
    let ghost all = record_texts(records@);
    let mut lines: Vec<Vec<u8>> = Vec::new();
    let mut i: usize = 0;
    assert(line_bytes(lines@) =~= Seq::<Seq<u8>>::empty());
    while i < records.len()
        invariant
            i <= records.len(),
            all == record_texts(records@),
            encoded(all.take(i as int)) == Ok::<Seq<Seq<u8>>, Seq<char>>(line_bytes(lines@)),
        decreases records.len() - i,
    {
        proof {
            assert(all.take(i + 1).drop_last() == all.take(i as int));
        }
        match encode_record(&records[i]) {
            Ok(line) => {
                assert(line_bytes(lines@.push(line)) =~= line_bytes(lines@).push(line@));
                lines.push(line);
            },
            Err(message) => {
                proof {
                    lemma_refused_stays(all, i + 1);
                }
                return Err(message);
            },
        }
        i += 1;
    }
    assert(all.take(i as int) == all);
    Ok(lines)
}

/// Puts the lines of a table behind the byte order mark.
pub fn frame_table(lines: &Vec<Vec<u8>>) -> (out: Vec<u8>)
    ensures
        out@ == framed(line_bytes(lines@)),
{
    let mut out: Vec<u8> = Vec::new();
    out.push(0xEFu8);
    out.push(0xBBu8);
    out.push(0xBFu8);
    let ghost all = line_bytes(lines@);
    let mut i: usize = 0;
    while i < lines.len()
        invariant
            i <= lines.len(),
            all == line_bytes(lines@),
            out@ == byte_order_mark() + concat(all.take(i as int)),
        decreases lines.len() - i,
    {
        proof {
            assert(all.take(i + 1).drop_last() == all.take(i as int));
        }
        append_bytes(&mut out, &lines[i]);
        i += 1;
    }
    assert(all.take(i as int) == all);
    out
}

/// Writes the table of the given prompts.
pub fn export_table(list: &Vec<Exported>) -> (result: Result<Vec<u8>, String>)
    ensures
        match result {
            Ok(bytes) => table_bytes(list@) == Ok::<Seq<u8>, Seq<char>>(bytes@),
            Err(message) => table_bytes(list@) == Err::<Seq<u8>, Seq<char>>(message@),
        },
{
    let records = export_records(list);
    match encode_records(&records) {
        Ok(lines) => Ok(frame_table(&lines)),
        Err(message) => Err(message),
    }
}

/// Once the writer has refused a record, its message stands for the whole
/// table.
proof fn lemma_refused_stays(records: Seq<Seq<Seq<char>>>, upto: int)
    requires
        0 <= upto <= records.len(),
        encoded(records.take(upto)) is Err,
    ensures
        encoded(records) == encoded(records.take(upto)),
    decreases records.len() - upto,
{
    if upto < records.len() {
        assert(records.take(upto + 1).drop_last() == records.take(upto));
        lemma_refused_stays(records, upto + 1);
    } else {
        assert(records.take(upto) == records);
    }
}

} // verus!
