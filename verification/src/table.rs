//! The table engine: create, read, insert, delete and the live-file listing.
//! The engine is the single writer of a table's log; every operation here is
//! a pure step of the command flow, from plain values to plain values. The
//! surrounding program owns the directories: it lists and reads log files,
//! persists columnar data, and writes the log entries this engine plans.

use vstd::prelude::*;
use crate::actions::{enc_action, spec_decode_action, Action, ActionView};
use crate::error::DeltaError;
use crate::log::{files_view, load_actions, log_file_name, log_name_seq, scan_of, LogFile};
use crate::metadata::{metadata_valid, DeltaTableFormat, DeltaTableMetadata};
use crate::replay::{is_live, paths_distinct, paths_of, replay};
use crate::schema::{
    encode_schema, enc_schema, pairs_view, schema_of_specs, schema_valid, spec_decode_schema,
    spec_sql_keyword_type, DeltaTableSchema, DeltaTableType,
};
use crate::text::{is_lower_hex, push_str_chars, string_from_chars};

verus! {

// ---------------------------------------------------------------------------
// plain values the engine exchanges with the surrounding program
// ---------------------------------------------------------------------------

/// What the columnar file store reports after persisting a batch.
#[derive(Debug, PartialEq, Eq, Clone)]
pub struct DataFile {
    pub name: String,
    pub size: u64,
}

/// One log entry to be written: the file name for its version and its text.
#[derive(Debug, PartialEq, Eq, Clone)]
pub struct LogEntry {
    pub file_name: String,
    pub content: String,
}

/// One column of a batch handed to the columnar file store: the raw values
/// of one schema field, in row order, with the declared type to cast to.
#[derive(Debug, PartialEq, Eq, Clone)]
pub struct Column {
    pub name: String,
    pub typ: DeltaTableType,
    pub values: Vec<String>,
}

/// One file a delete rewrites: the live file it tombstones and the new data
/// file holding the surviving rows.
#[derive(Debug, PartialEq, Eq, Clone)]
pub struct FileRewrite {
    pub old_path: String,
    pub new_file: DataFile,
}

/// Everything a create must write: the new handle, and the version-0 log
/// entry holding the single metadata action.
#[derive(Debug)]
pub struct CreatePlan {
    pub table: DeltaTable,
    pub log: LogEntry,
}

// ---------------------------------------------------------------------------
// the table handle
// ---------------------------------------------------------------------------

/// A handle on one table: its metadata and its two directory paths. Handles
/// are stateless beyond these; versions and indices are recomputed from log
/// content at each commit.
#[derive(Debug)]
pub struct DeltaTable {
    pub metadata: DeltaTableMetadata,
    pub base_dir: String,
    pub logs_dir: String,
}

/// The base directory of a table name.
pub open spec fn base_dir_of(name: Seq<char>) -> Seq<char> {
    ("tables/")@ + name
}

/// The log subdirectory of a table name.
pub open spec fn logs_dir_of(name: Seq<char>) -> Seq<char> {
    ("tables/")@ + name + ("/_delta_log")@
}

/// The hyphenated lower-case text form of a table id: 36 characters with
/// hyphens at the four fixed positions and lower-case hex digits elsewhere.
pub open spec fn is_uuid_text(s: Seq<char>) -> bool {
    &&& s.len() == 36
    &&& forall|i: int|
        0 <= i < 36 && (i == 8 || i == 13 || i == 18 || i == 23) ==> #[trigger] s[i] == '-'
    &&& forall|i: int|
        0 <= i < 36 && !(i == 8 || i == 13 || i == 18 || i == 23) ==> is_lower_hex(#[trigger] s[i])
}

/// Relies on `uuid::Uuid::new_v4` and the `Display` impl of `Uuid`: a fresh
/// random version-4 identifier, written in the hyphenated form, which is 36
/// characters, lower-case hex digits with hyphens at positions 8, 13, 18
/// and 23. Nothing is assumed about which identifier comes back; the call
/// aborts only if the operating system's entropy source is unavailable.
#[verifier::external_body]
fn fresh_table_id() -> (r: String)
    ensures
        is_uuid_text(r@),
{
    uuid::Uuid::new_v4().to_string()
}

fn build_base_dir(name: &str) -> (r: String)
    ensures
        r@ == base_dir_of(name@),
{
    let mut cs: Vec<char> = Vec::new();
    push_str_chars(&mut cs, "tables/");
    push_str_chars(&mut cs, name);
    string_from_chars(&cs)
}

fn build_logs_dir(name: &str) -> (r: String)
    ensures
        r@ == logs_dir_of(name@),
{
    let mut cs: Vec<char> = Vec::new();
    push_str_chars(&mut cs, "tables/");
    push_str_chars(&mut cs, name);
    push_str_chars(&mut cs, "/_delta_log");
    string_from_chars(&cs)
}

// ---------------------------------------------------------------------------
// create
// ---------------------------------------------------------------------------

/// Whether every SQL type keyword in the column specifications resolves.
pub open spec fn all_types_resolve(specs: Seq<(Seq<char>, Seq<char>)>) -> bool {
    forall|i: int| 0 <= i < specs.len() ==> spec_sql_keyword_type((#[trigger] specs[i]).1) is Some
}

impl DeltaTable {
    /// Plans the creation of a table: builds and validates the schema, draws
    /// a fresh id, builds and validates the metadata, and lays out the
    /// version-0 log entry holding the single metadata action. Succeeds on
    /// exactly the inputs whose type keywords all resolve and whose field
    /// names are pairwise distinct; an unresolved keyword is
    /// `InvalidColumnType`, a validation failure `InvalidTable`. Nothing is
    /// written here: the surrounding program creates the two directories,
    /// failing with `TableAlreadyExists` when the base directory is already
    /// present, and then writes the planned entry.
    pub fn create_table(name: &str, schema: Vec<(String, String)>) -> (r: Result<
        CreatePlan,
        DeltaError,
    >)
        ensures
            r is Ok <==> all_types_resolve(pairs_view(schema@)) && schema_valid(
                schema_of_specs(pairs_view(schema@)),
            ),
            r matches Ok(plan) ==> {
                &&& plan.table.metadata@.name == name@
                &&& is_uuid_text(plan.table.metadata@.id)
                &&& plan.table.metadata@.schema_string == enc_schema(
                    schema_of_specs(pairs_view(schema@)),
                )
                &&& metadata_valid(plan.table.metadata@)
                &&& plan.table.base_dir@ == base_dir_of(name@)
                &&& plan.table.logs_dir@ == logs_dir_of(name@)
                &&& plan.log.file_name@ == log_name_seq(0)
                &&& plan.log.content@ == enc_action(ActionView::Metadata(plan.table.metadata@))
            },
            r matches Err(e) ==> (e == DeltaError::InvalidColumnType && !all_types_resolve(
                pairs_view(schema@),
            )) || (e == DeltaError::InvalidTable && all_types_resolve(pairs_view(schema@))
                && !schema_valid(schema_of_specs(pairs_view(schema@)))),
    {
        let schema = match DeltaTableSchema::from_sql(schema) {
            Ok(s) => s,
            Err(e) => {
                return Err(e);
            },
        };
        if !schema.is_valid() {
            return Err(DeltaError::InvalidTable);
        }
        let id = fresh_table_id();
        let metadata = DeltaTableMetadata::new(
            id,
            name.to_owned(),
            DeltaTableFormat::new("parquet".to_owned(), Vec::new()),
            encode_schema(&schema),
            Vec::new(),
            Vec::new(),
        );
        proof {
            reveal_strlit("parquet");
            assert(pairs_view(Seq::<(String, String)>::empty()) =~= Seq::<
                (Seq<char>, Seq<char>),
            >::empty());
            assert(crate::metadata::strings_view(Seq::<String>::empty()) =~= Seq::<
                Seq<char>,
            >::empty());
        }
        proof {
            assert(metadata@.format.options.len() == 0);
            assert(metadata@.partition_columns.len() == 0);
            assert(metadata@.configuration.len() == 0);
            assert(metadata@.format.provider == ("parquet")@);
            assert(metadata_valid(metadata@));
        }
        if !metadata.is_valid() {
            return Err(DeltaError::InvalidTable);
        }
        let table = DeltaTable {
            metadata,
            base_dir: build_base_dir(name),
            logs_dir: build_logs_dir(name),
        };
        let mut out: Vec<char> = Vec::new();
        push_str_chars(&mut out, "{\"metaData\":");
        crate::metadata::push_meta(&mut out, &table.metadata);
        push_str_chars(&mut out, "}");
        proof {
            assert(out@ =~= enc_action(ActionView::Metadata(table.metadata@)));
        }
        let log = LogEntry { file_name: log_file_name(0), content: string_from_chars(&out) };
        Ok(CreatePlan { table, log })
    }

    /// Reads a table back from the text of log version 0, which the
    /// surrounding program loads from the log subdirectory. Anything but a
    /// single metadata action is `InvalidTable`; later log versions are
    /// never consulted, since metadata is immutable after creation.
    pub fn read_table(name: &str, version0_content: &str) -> (r: Result<DeltaTable, DeltaError>)
        ensures
            r is Ok <==> (spec_decode_action(version0_content@) matches Some(a) && a is Metadata),
            r matches Ok(t) ==> {
                &&& spec_decode_action(version0_content@) == Some(
                    ActionView::Metadata(t.metadata@),
                )
                &&& t.base_dir@ == base_dir_of(name@)
                &&& t.logs_dir@ == logs_dir_of(name@)
            },
            r matches Err(e) ==> e == DeltaError::InvalidTable,
    {
        match Action::decode(version0_content) {
            Ok(Action::Metadata(metadata)) => Ok(
                DeltaTable {
                    metadata,
                    base_dir: build_base_dir(name),
                    logs_dir: build_logs_dir(name),
                },
            ),
            _ => Err(DeltaError::InvalidTable),
        }
    }

    /// Builds the columnar batch of an insert: reads the schema back from
    /// its serialized form, checks that every row is exactly as wide as the
    /// schema, and transposes the rows into one column per schema field, in
    /// schema order. An unreadable schema is a `SerializationFailure`; a row
    /// of the wrong width fails the whole insert with `RowShapeMismatch` and
    /// no partial batch. The surrounding program casts each column to its
    /// declared type and persists the batch through the columnar file store.
    pub fn insert(&self, rows: &Vec<Vec<String>>) -> (r: Result<Vec<Column>, DeltaError>)
        ensures
            r is Ok <==> (spec_decode_schema(self.metadata@.schema_string) matches Some(sc) && (
            forall|j: int| 0 <= j < rows@.len() ==> (#[trigger] rows@[j])@.len() == sc.fields.len())),
            r matches Ok(cols) ==> {
                let sc = spec_decode_schema(self.metadata@.schema_string)->Some_0;
                &&& cols@.len() == sc.fields.len()
                &&& forall|i: int|
                    0 <= i < cols@.len() ==> (#[trigger] cols@[i]).name@ == sc.fields[i].name
                        && cols@[i].typ == sc.fields[i].typ
                &&& forall|i: int|
                    0 <= i < cols@.len() ==> (#[trigger] cols@[i]).values@.len() == rows@.len()
                &&& forall|i: int, j: int|
                    0 <= i < cols@.len() && 0 <= j < rows@.len()
                        ==> (#[trigger] cols@[i].values@[j])@ == rows@[j]@[i]@
            },
            r matches Err(e) ==> if e == DeltaError::SerializationFailure {
                spec_decode_schema(self.metadata@.schema_string) is None
            } else {
                e == DeltaError::RowShapeMismatch && spec_decode_schema(
                    self.metadata@.schema_string,
                ) is Some && (exists|j: int|
                    0 <= j < rows@.len() && (#[trigger] rows@[j])@.len() != spec_decode_schema(
                        self.metadata@.schema_string,
                    )->Some_0.fields.len())
            },
    {
        let schema = match self.metadata.schema() {
            Ok(s) => s,
            Err(_) => {
                return Err(DeltaError::SerializationFailure);
            },
        };
        let n_cols = schema.fields.len();
        let mut j: usize = 0;
        while j < rows.len()
            invariant
                j <= rows@.len(),
                n_cols == spec_decode_schema(self.metadata@.schema_string)->Some_0.fields.len(),
                spec_decode_schema(self.metadata@.schema_string) is Some,
                forall|m: int| 0 <= m < j ==> (#[trigger] rows@[m])@.len() == n_cols,
            decreases rows@.len() - j,
        {
            if rows[j].len() != n_cols {
                return Err(DeltaError::RowShapeMismatch);
            }
            j = j + 1;
        }
        let mut cols: Vec<Column> = Vec::new();
        let mut i: usize = 0;
        let ghost sc = spec_decode_schema(self.metadata@.schema_string)->Some_0;
        while i < n_cols
            invariant
                i <= n_cols,
                schema@ == sc,
                n_cols == sc.fields.len(),
                schema.fields@.len() == n_cols,
                forall|m: int| 0 <= m < rows@.len() ==> (#[trigger] rows@[m])@.len() == n_cols,
                cols@.len() == i,
                forall|m: int|
                    0 <= m < i ==> (#[trigger] cols@[m]).name@ == sc.fields[m].name && cols@[m].typ
                        == sc.fields[m].typ,
                forall|m: int| 0 <= m < i ==> (#[trigger] cols@[m]).values@.len() == rows@.len(),
                forall|m: int, j: int|
                    0 <= m < i && 0 <= j < rows@.len() ==> (#[trigger] cols@[m].values@[j])@
                        == rows@[j]@[m]@,
            decreases n_cols - i,
        {
            let mut values: Vec<String> = Vec::new();
            let mut j: usize = 0;
            while j < rows.len()
                invariant
                    i < n_cols,
                    j <= rows@.len(),
                    forall|m: int| 0 <= m < rows@.len() ==> (#[trigger] rows@[m])@.len() == n_cols,
                    values@.len() == j,
                    forall|m: int| 0 <= m < j ==> (#[trigger] values@[m])@ == rows@[m]@[i as int]@,
                decreases rows@.len() - j,
            {
                values.push(rows[j][i].clone());
                j = j + 1;
            }
            proof {
                assert(schema@.fields[i as int] == schema.fields@[i as int]@);
            }
            cols.push(
                Column { name: schema.fields[i].name.clone(), typ: schema.fields[i].typ, values },
            );
            i = i + 1;
        }
        Ok(cols)
    }

    /// Lays out the log entry committing one insert: a single add action for
    /// the persisted data file, with `dataChange` set, at the given version.
    pub fn insert_commit(&self, file: &DataFile, modification_time: u128, version: u64) -> (r:
        LogEntry)
        ensures
            r.file_name@ == log_name_seq(version as nat),
            r.content@ == enc_action(
                ActionView::Add {
                    path: file.name@,
                    partition_values: Seq::empty(),
                    size: file.size,
                    modification_time,
                    data_change: true,
                },
            ),
    {
        let action = Action::Add {
            path: file.name.clone(),
            partition_values: Vec::new(),
            size: file.size,
            modification_time,
            data_change: true,
        };
        proof {
            assert(pairs_view(Seq::<(String, String)>::empty()) =~= Seq::<
                (Seq<char>, Seq<char>),
            >::empty());
            assert(action@ =~~= (ActionView::Add {
                path: file.name@,
                partition_values: Seq::empty(),
                size: file.size,
                modification_time,
                data_change: true,
            }));
        }
        LogEntry { file_name: log_file_name(version), content: action.encode() }
    }

    /// The query handed to the predicate evaluator for a delete: keep the
    /// rows where the predicate does not hold.
    pub fn delete_query(expr: &str) -> (r: String)
        ensures
            r@ == ("SELECT * FROM df WHERE NOT (")@ + expr@ + (");")@,
    {
        let mut cs: Vec<char> = Vec::new();
        push_str_chars(&mut cs, "SELECT * FROM df WHERE NOT (");
        push_str_chars(&mut cs, expr);
        push_str_chars(&mut cs, ");");
        string_from_chars(&cs)
    }

    /// Whether a delete must rewrite a file: the filtered row count differs
    /// from the original.
    pub fn file_modified(original_rows: usize, remaining_rows: usize) -> (r: bool)
        ensures
            r == (original_rows != remaining_rows),
    {
        original_rows != remaining_rows
    }

    /// Lays out the log entry committing one delete: every add action first,
    /// then every remove action, one line each, all sharing the one
    /// modification time captured before serialization. A delete that
    /// rewrote nothing appends nothing: the log directory is left untouched.
    pub fn delete(&self, rewrites: &Vec<FileRewrite>, modification_time: u128, version: u64) -> (r:
        Option<LogEntry>)
        ensures
            r is Some <==> rewrites@.len() > 0,
            r matches Some(entry) ==> {
                &&& entry.file_name@ == log_name_seq(version as nat)
                &&& entry.content@ == join_lines(
                    delete_lines(rewrites_view(rewrites@), modification_time),
                )
            },
    {
        if rewrites.len() == 0 {
            return None;
        }
        let ghost lines = delete_lines(rewrites_view(rewrites@), modification_time);
        let n = rewrites.len();
        let mut out: Vec<char> = Vec::new();
        let mut i: usize = 0;
        proof {
            assert(lines.len() == 2 * n);
            assert(out@ =~= join_lines(lines.take(0)));
        }
        while i < n
            invariant
                i <= n,
                n == rewrites@.len(),
                n >= 1,
                lines == delete_lines(rewrites_view(rewrites@), modification_time),
                lines.len() == 2 * n,
                out@ == join_lines(lines.take(i as int)),
            decreases n - i,
        {
            if i > 0 {
                out.push('\n');
            }
            let line = Action::Add {
                path: rewrites[i].new_file.name.clone(),
                partition_values: Vec::new(),
                size: rewrites[i].new_file.size,
                modification_time,
                data_change: true,
            }.encode();
            push_str_chars(&mut out, line.as_str());
            proof {
                assert(pairs_view(Seq::<(String, String)>::empty()) =~= Seq::<
                    (Seq<char>, Seq<char>),
                >::empty());
                assert(lines[i as int] =~= line@) by {
                    assert(rewrites_view(rewrites@)[i as int] == rewrites@[i as int]@);
                }
                lemma_join_lines_snoc(lines, i as int);
                assert(out@ =~= join_lines(lines.take(i + 1 as int)));
            }
            i = i + 1;
        }
        let mut k: usize = 0;
        while k < n
            invariant
                k <= n,
                n == rewrites@.len(),
                n >= 1,
                lines == delete_lines(rewrites_view(rewrites@), modification_time),
                lines.len() == 2 * n,
                out@ == join_lines(lines.take(n + k as int)),
            decreases n - k,
        {
            out.push('\n');
            let line = Action::Remove {
                path: rewrites[k].old_path.clone(),
                data_change: true,
            }.encode();
            push_str_chars(&mut out, line.as_str());
            proof {
                assert(lines[n + k as int] =~= line@) by {
                    assert(rewrites_view(rewrites@)[k as int] == rewrites@[k as int]@);
                }
                lemma_join_lines_snoc(lines, n + k as int);
                assert(out@ =~= join_lines(lines.take(n + k + 1 as int)));
            }
            k = k + 1;
        }
        proof {
            assert(lines.take(2 * n as int) =~= lines);
        }
        Some(LogEntry { file_name: log_file_name(version), content: string_from_chars(&out) })
    }

    /// The live data files of the table: the whole log directory replayed,
    /// newest version first. The result is a set: deduplicated paths with no
    /// ordering guarantee. Any malformed line is a `SerializationFailure`.
    pub fn get_datafiles(&self, files: &Vec<LogFile>) -> (r: Result<Vec<String>, DeltaError>)
        ensures
            r is Ok <==> scan_of(files_view(files@)) is Some,
            r matches Ok(paths) ==> {
                let acts = scan_of(files_view(files@))->Some_0;
                &&& forall|p: Seq<char>| #[trigger] paths_of(paths@).contains(p) <==> is_live(
                    acts,
                    p,
                )
                &&& paths_distinct(paths_of(paths@))
            },
            r matches Err(e) ==> e == DeltaError::SerializationFailure,
    {
        let actions = match load_actions(files) {
            Ok(a) => a,
            Err(e) => {
                return Err(e);
            },
        };
        Ok(replay(&actions))
    }
}

// ---------------------------------------------------------------------------
// the delete commit's lines
// ---------------------------------------------------------------------------

/// The mathematical shape of one rewrite.
#[verifier::ext_equal]
pub struct RewriteView {
    pub old_path: Seq<char>,
    pub new_name: Seq<char>,
    pub new_size: u64,
}

impl View for FileRewrite {
    type V = RewriteView;

    open spec fn view(&self) -> RewriteView {
        RewriteView {
            old_path: self.old_path@,
            new_name: self.new_file.name@,
            new_size: self.new_file.size,
        }
    }
}

pub open spec fn rewrites_view(v: Seq<FileRewrite>) -> Seq<RewriteView> {
    v.map_values(|r: FileRewrite| r@)
}

/// The add line of one rewrite.
pub open spec fn add_line(r: RewriteView, mt: u128) -> Seq<char> {
    enc_action(
        ActionView::Add {
            path: r.new_name,
            partition_values: Seq::empty(),
            size: r.new_size,
            modification_time: mt,
            data_change: true,
        },
    )
}

/// The remove line of one rewrite.
pub open spec fn remove_line(r: RewriteView) -> Seq<char> {
    enc_action(ActionView::Remove { path: r.old_path, data_change: true })
}

/// The lines of one delete commit: every add first, then every remove.
pub open spec fn delete_lines(rs: Seq<RewriteView>, mt: u128) -> Seq<Seq<char>> {
    rs.map_values(|r: RewriteView| add_line(r, mt)) + rs.map_values(|r: RewriteView| remove_line(r))
}

/// Lines joined by single newlines.
pub open spec fn join_lines(ls: Seq<Seq<char>>) -> Seq<char>
    decreases ls.len(),
{
    if ls.len() == 0 {
        Seq::empty()
    } else if ls.len() == 1 {
        ls[0]
    } else {
        join_lines(ls.drop_last()) + seq!['\n'] + ls.last()
    }
}

/// Joining one more line appends a newline and the line.
proof fn lemma_join_lines_snoc(ls: Seq<Seq<char>>, k: int)
    requires
        0 <= k < ls.len(),
    ensures
        k == 0 ==> join_lines(ls.take(1)) == ls[0],
        k > 0 ==> join_lines(ls.take(k + 1)) == join_lines(ls.take(k)) + seq!['\n'] + ls[k],
{
    if k == 0 {
        assert(ls.take(1).len() == 1);
        assert(ls.take(1)[0] == ls[0]);
    } else {
        assert(ls.take(k + 1).drop_last() =~= ls.take(k));
        assert(ls.take(k + 1).last() == ls[k]);
    }
}

} // verus!
