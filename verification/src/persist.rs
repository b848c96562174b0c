//! What a persistent store needs from the core: the layout of a persisted
//! record, and the steps that bring an older table up to the current
//! schema.

use crate::cache::{texts, FileMeta, FileMetaView};
use crate::metadata::{text_view, GpsAngle};
use crate::tags::{decode_tags, json_tags, stored_tags};
use vstd::prelude::*;
use vstd::string::StringExecFns;

verus! {

// ---------------------------------------------------------------------------
// Rows
// ---------------------------------------------------------------------------

/// A record as a table row holds it: the tags are one text value, which
/// may be absent.
#[derive(Clone, Debug, PartialEq, Eq)]
pub struct FileRow {
    pub path: String,
    pub camera_rating: Option<i32>,
    pub user_rating: Option<i32>,
    pub tags: Option<String>,
    pub gps_lat: Option<GpsAngle>,
    pub gps_lon: Option<GpsAngle>,
    pub taken_at: Option<String>,
    pub orientation: Option<i32>,
    pub file_size: i64,
    pub last_modified: i64,
}

/// The record that a row stands for.
pub open spec fn row_record(row: FileRow) -> FileMetaView {
    FileMetaView {
        path: row.path@,
        camera_rating: row.camera_rating,
        user_rating: row.user_rating,
        tags: stored_tags(
            match row.tags {
                Some(text) => Some(json_tags(text@)),
                None => None,
            },
        ),
        gps_lat: row.gps_lat,
        gps_lon: row.gps_lon,
        taken_at: text_view(row.taken_at),
        orientation: row.orientation,
        file_size: row.file_size,
        last_modified: row.last_modified,
    }
}

/// Turns a table row into a record. Tags that are absent or cannot be
/// parsed become the empty list.
pub fn row_to_meta(row: FileRow) -> (meta: FileMeta)
    ensures
        meta@ == row_record(row),
{
    let tags = match &row.tags {
        Some(text) => decode_tags(Some(text.as_str())),
        None => decode_tags(None),
    };
    FileMeta {
        path: row.path,
        camera_rating: row.camera_rating,
        user_rating: row.user_rating,
        tags,
        gps_lat: row.gps_lat,
        gps_lon: row.gps_lon,
        taken_at: row.taken_at,
        orientation: row.orientation,
        file_size: row.file_size,
        last_modified: row.last_modified,
    }
}

// ---------------------------------------------------------------------------
// Schema
// ---------------------------------------------------------------------------

/// One step of bringing the table of records up to the current schema.
#[derive(Clone, Debug, PartialEq, Eq)]
pub enum SchemaStep {
    /// Rename the table aside, to a name that ends in `suffix`.
    RenameLegacy { suffix: u64 },
    /// Create the table afresh with the current schema.
    CreateTable,
    /// Add a column that the table lacks.
    AddColumn { name: String, definition: String },
}

/// A step as mathematical values.
pub enum SchemaStepView {
    RenameLegacy { suffix: u64 },
    CreateTable,
    AddColumn { name: Seq<char>, definition: Seq<char> },
}

impl View for SchemaStep {
    type V = SchemaStepView;

    open spec fn view(&self) -> SchemaStepView {
        match self {
            SchemaStep::RenameLegacy { suffix } => SchemaStepView::RenameLegacy { suffix: *suffix },
            SchemaStep::CreateTable => SchemaStepView::CreateTable,
            SchemaStep::AddColumn { name, definition } => SchemaStepView::AddColumn {
                name: name@,
                definition: definition@,
            },
        }
    }
}

/// The views of a list of steps.
pub open spec fn steps_view(steps: Seq<SchemaStep>) -> Seq<SchemaStepView> {
    Seq::new(steps.len(), |i: int| steps[i]@)
}

/// The columns that every table of records has besides the key, each with
/// its definition, in the order in which they are added.
pub open spec fn required_columns() -> Seq<(Seq<char>, Seq<char>)> {
    seq![
        ("camera_rating"@, "INTEGER"@),
        ("user_rating"@, "INTEGER"@),
        ("tags"@, "TEXT"@),
        ("gps_lat"@, "REAL"@),
        ("gps_lon"@, "REAL"@),
        ("taken_at"@, "TEXT"@),
        ("orientation"@, "INTEGER"@),
        ("file_size"@, "INTEGER NOT NULL DEFAULT 0"@),
        ("last_modified"@, "INTEGER NOT NULL DEFAULT 0"@),
    ]
}

/// The steps that add, in order, those of the first `upto` required
/// columns that the table lacks.
pub open spec fn added_columns(columns: Seq<Seq<char>>, upto: int) -> Seq<SchemaStepView>
    decreases upto,
{
    if upto <= 0 {
        Seq::empty()
    } else {
        let before = added_columns(columns, upto - 1);
        let column = required_columns()[upto - 1];
        if columns.contains(column.0) {
            before
        } else {
            before.push(SchemaStepView::AddColumn { name: column.0, definition: column.1 })
        }
    }
}

/// The steps for a table with the given columns. A table that does not
/// exist yet, seen as one without columns, needs none. A table without the
/// key column `path` is renamed aside and created afresh. Any other table
/// gets the columns it lacks.
pub open spec fn schema_plan(columns: Seq<Seq<char>>, legacy_suffix: u64) -> Seq<SchemaStepView> {
    if columns.len() == 0 {
        Seq::empty()
    } else if !columns.contains("path"@) {
        seq![
            SchemaStepView::RenameLegacy { suffix: legacy_suffix },
            SchemaStepView::CreateTable,
        ]
    } else {
        added_columns(columns, required_columns().len() as int)
    }
}

fn has_column(columns: &Vec<String>, name: &str) -> (b: bool)
    ensures
        b == texts(columns@).contains(name@),
{
    let wanted = String::from_str(name);
    let mut i: usize = 0;
    while i < columns.len()
        invariant
            i <= columns.len(),
            wanted@ == name@,
            forall|j: int| 0 <= j < i ==> texts(columns@)[j] != name@,
        decreases columns.len() - i,
    {
        if columns[i] == wanted {
            assert(texts(columns@)[i as int] == name@);
            return true;
        }
        i = i + 1;
    }
    false
}

fn required_column(index: usize) -> (column: (&'static str, &'static str))
    requires
        index < 9,
    ensures
        (column.0@, column.1@) == required_columns()[index as int],
{
    match index {
        0 => ("camera_rating", "INTEGER"),
        1 => ("user_rating", "INTEGER"),
        2 => ("tags", "TEXT"),
        3 => ("gps_lat", "REAL"),
        4 => ("gps_lon", "REAL"),
        5 => ("taken_at", "TEXT"),
        6 => ("orientation", "INTEGER"),
        7 => ("file_size", "INTEGER NOT NULL DEFAULT 0"),
        _ => ("last_modified", "INTEGER NOT NULL DEFAULT 0"),
    }
}

/// Plans how to bring the table of records up to the current schema, from
/// the names of the columns it has now. `legacy_suffix` names the table
/// that an incompatible one is renamed to.
pub fn ensure_files_schema(columns: &Vec<String>, legacy_suffix: u64) -> (plan: Vec<SchemaStep>)
    ensures
        steps_view(plan@) == schema_plan(texts(columns@), legacy_suffix),
{
    let mut plan: Vec<SchemaStep> = Vec::new();
    if columns.len() == 0 {
        proof {
            assert(steps_view(plan@) =~= Seq::<SchemaStepView>::empty());
        }
        return plan;
    }
    if !has_column(columns, "path") {
        plan.push(SchemaStep::RenameLegacy { suffix: legacy_suffix });
        plan.push(SchemaStep::CreateTable);
        proof {
            assert(steps_view(plan@) =~= seq![
                SchemaStepView::RenameLegacy { suffix: legacy_suffix },
                SchemaStepView::CreateTable,
            ]);
        }
        return plan;
    }
    let mut i: usize = 0;
    proof {
        assert(steps_view(plan@) =~= added_columns(texts(columns@), 0));
    }
    while i < 9
        invariant
            i <= 9,
            required_columns().len() == 9,
            steps_view(plan@) == added_columns(texts(columns@), i as int),
        decreases 9 - i,
    {
        let (name, definition) = required_column(i);
        let ghost before = steps_view(plan@);
        if !has_column(columns, name) {
            plan.push(
                SchemaStep::AddColumn {
                    name: String::from_str(name),
                    definition: String::from_str(definition),
                },
            );
            proof {
                assert(steps_view(plan@) =~= before.push(
                    SchemaStepView::AddColumn { name: name@, definition: definition@ },
                ));
            }
        }
        i = i + 1;
    }
    plan
}

/// The steps that prepare the table of records at startup, from the
/// columns of the table as it is found: a table that is not there is
/// created; one that is there is brought up to the current schema.
pub open spec fn startup_plan(columns: Seq<Seq<char>>, legacy_suffix: u64) -> Seq<SchemaStepView> {
    if columns.len() == 0 {
        seq![SchemaStepView::CreateTable]
    } else {
        schema_plan(columns, legacy_suffix)
    }
}

/// Plans the preparation of the table of records at startup. `columns`
/// names the columns of the table as it is found, and is empty where there
/// is no table yet.
pub fn init_db(columns: &Vec<String>, legacy_suffix: u64) -> (plan: Vec<SchemaStep>)
    ensures
        steps_view(plan@) == startup_plan(texts(columns@), legacy_suffix),
{
    if columns.len() == 0 {
        let mut plan: Vec<SchemaStep> = Vec::new();
        plan.push(SchemaStep::CreateTable);
        proof {
            assert(steps_view(plan@) =~= seq![SchemaStepView::CreateTable]);
        }
        plan
    } else {
        ensure_files_schema(columns, legacy_suffix)
    }
}

} // verus!
