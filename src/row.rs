//! Rows of a database built on a replicated document: their metadata ids and the
//! parameters that create them.
use vstd::prelude::*;

verus! {

/// A row's id: a UUID in its text form.
pub type RowId = String;

/// A row's cells: for each field id, the cell in its encoded form.
pub type Cells = Vec<(String, Vec<u8>)>;

/// The metadata documents that belong to a row.
#[derive(Debug, Clone, Copy, PartialEq, Eq, Structural)]
pub enum RowMetaKey {
    DocumentId,
    IconId,
    CoverId,
}

impl RowMetaKey {
    pub open spec fn spec_str(&self) -> Seq<char> {
        match self {
            RowMetaKey::DocumentId => "document_id"@,
            RowMetaKey::IconId => "icon_id"@,
            RowMetaKey::CoverId => "cover_id"@,
        }
    }

    pub fn as_str(&self) -> (r: &'static str)
        ensures
            r@ == self.spec_str(),
    {
        match self {
            RowMetaKey::DocumentId => "document_id",
            RowMetaKey::IconId => "icon_id",
            RowMetaKey::CoverId => "cover_id",
        }
    }
}

/// A name for the UUID (as a 128-bit integer) that `Uuid::parse_str` reads from a text.
pub uninterp spec fn parsed_uuid(s: Seq<char>) -> Option<u128>;

/// A name for the hyphenated text of the version-5 UUID of `name` in namespace `ns`.
pub uninterp spec fn uuid_v5_text(ns: u128, name: Seq<char>) -> Seq<char>;

/// Relies on uuid's `Uuid::parse_str`: reads the simple, hyphenated, braced or URN form
/// of a UUID; the result depends on the text alone.
#[verifier::external_body]
fn parse_uuid(s: &str) -> (r: Option<u128>)
    ensures
        r == parsed_uuid(s@),
{
    match uuid::Uuid::parse_str(s) {
        Ok(u) => Some(u.as_u128()),
        Err(_) => None,
    }
}

/// Relies on uuid's `Uuid::new_v5` (SHA-1 name-based UUID), written by its `Display`
/// impl: lower-case hyphenated text, 36 characters.
#[verifier::external_body]
fn uuid_v5_string(ns: u128, name: &str) -> (r: String)
    ensures
        r@ == uuid_v5_text(ns, name@),
        r@.len() == 36,
{
    uuid::Uuid::new_v5(&uuid::Uuid::from_u128(ns), name.as_bytes()).to_string()
}

/// Relies on uuid's `Uuid::new_v4`: a random UUID, as 36 characters of hyphenated text.
#[verifier::external_body]
pub(crate) fn random_uuid_string() -> (r: String)
    ensures
        r@.len() == 36,
{
    uuid::Uuid::new_v4().to_string()
}

/// Relies on chrono's `Utc::now().timestamp()`: the current time in seconds since the epoch.
#[verifier::external_body]
pub(crate) fn timestamp() -> (r: i64) {
    chrono::Utc::now().timestamp()
}

/// The id of the metadata document `key` of the row whose id is the UUID `row_id`.
pub fn meta_id_from_row_id(row_id: u128, key: RowMetaKey) -> (r: String)
    ensures
        r@ == uuid_v5_text(row_id, key.spec_str()),
{
    uuid_v5_string(row_id, key.as_str())
}

/// The UUID that a text stands for, as a 128-bit integer.
pub fn parse_row_uuid(s: &str) -> (r: Option<u128>)
    ensures
        r == parsed_uuid(s@),
{
    parse_uuid(s)
}

/// A row of a database.
#[derive(Debug, Clone, PartialEq)]
pub struct Row {
    pub id: RowId,
    pub cells: Cells,
    pub height: i32,
    pub visibility: bool,
    pub created_at: i64,
    pub modified_at: i64,
}

impl Row {
    /// A row with the default height 60, visible, created and modified now.
    pub fn new(id: RowId) -> (r: Self)
        ensures
            r.id@ == id@,
            r.cells@.len() == 0,
            r.height == 60,
            r.visibility,
            r.created_at == r.modified_at,
    {
        let now = timestamp();
        Row { id, cells: Vec::new(), height: 60, visibility: true, created_at: now, modified_at: now }
    }

    /// The id of one of the row's metadata documents: derived from the row id when that is
    /// a UUID, a fresh random id otherwise.
    fn meta_id_from_meta_type(&self, key: RowMetaKey) -> (r: String)
        ensures
            parsed_uuid(self.id@) is Some ==> r@ == uuid_v5_text(
                parsed_uuid(self.id@)->Some_0,
                key.spec_str(),
            ),
            parsed_uuid(self.id@) is None ==> r@.len() == 36,
    {
        match parse_uuid(self.id.as_str()) {
            Some(row_id) => meta_id_from_row_id(row_id, key),
            None => random_uuid_string(),
        }
    }

    pub fn document_id(&self) -> (r: String)
        ensures
            parsed_uuid(self.id@) is Some ==> r@ == uuid_v5_text(
                parsed_uuid(self.id@)->Some_0,
                "document_id"@,
            ),
            parsed_uuid(self.id@) is None ==> r@.len() == 36,
    {
        self.meta_id_from_meta_type(RowMetaKey::DocumentId)
    }

    pub fn icon_id(&self) -> (r: String)
        ensures
            parsed_uuid(self.id@) is Some ==> r@ == uuid_v5_text(
                parsed_uuid(self.id@)->Some_0,
                "icon_id"@,
            ),
            parsed_uuid(self.id@) is None ==> r@.len() == 36,
    {
        self.meta_id_from_meta_type(RowMetaKey::IconId)
    }

    pub fn cover_id(&self) -> (r: String)
        ensures
            parsed_uuid(self.id@) is Some ==> r@ == uuid_v5_text(
                parsed_uuid(self.id@)->Some_0,
                "cover_id"@,
            ),
            parsed_uuid(self.id@) is None ==> r@.len() == 36,
    {
        self.meta_id_from_meta_type(RowMetaKey::CoverId)
    }

    /// A copy of this row.
    pub fn copy(&self) -> (r: Row)
        ensures
            r.id == self.id,
            r.height == self.height,
            r.visibility == self.visibility,
            r.created_at == self.created_at,
            r.modified_at == self.modified_at,
    {
        Row {
            id: self.id.clone(),
            cells: self.cells.clone(),
            height: self.height,
            visibility: self.visibility,
            created_at: self.created_at,
            modified_at: self.modified_at,
        }
    }

    /// The row that `params` describe, created and modified at their timestamp.
    pub fn from_params(params: CreateRowParams) -> (r: Row)
        ensures
            r.id == params.id,
            r.cells == params.cells,
            r.height == params.height,
            r.visibility == params.visibility,
            r.created_at == params.timestamp,
            r.modified_at == params.timestamp,
    {
        Row {
            id: params.id,
            cells: params.cells,
            height: params.height,
            visibility: params.visibility,
            created_at: params.timestamp,
            modified_at: params.timestamp,
        }
    }
}

/// What can be wrong with the parameters of a new row.
#[derive(Debug, Clone, Copy, PartialEq, Eq, Structural)]
pub enum DatabaseError {
    /// The row id is empty.
    EmptyRowId,
    /// The id of the row to insert after is empty.
    EmptyPrevRowId,
    /// A view with that id already exists.
    ViewAlreadyExists,
}

/// What a new row is made of, and where it goes.
#[derive(Debug, Clone)]
pub struct CreateRowParams {
    pub id: RowId,
    pub cells: Cells,
    pub height: i32,
    pub visibility: bool,
    pub prev_row_id: Option<RowId>,
    pub timestamp: i64,
}

impl Default for CreateRowParams {
    /// Parameters of a visible row of height 60 with no cells under a fresh random id,
    /// placed first, without a timestamp (0).
    fn default() -> (r: Self)
        ensures
            r.id@.len() == 36,
            r.cells@.len() == 0,
            r.height == 60,
            r.visibility,
            r.prev_row_id is None,
            r.timestamp == 0,
    {
        CreateRowParams {
            id: random_uuid_string(),
            cells: Vec::new(),
            height: 60,
            visibility: true,
            prev_row_id: None,
            timestamp: 0,
        }
    }
}

impl CreateRowParams {
    /// Parameters of a visible row of height 60 with no cells, placed first, stamped now.
    pub fn new(id: RowId) -> (r: Self)
        ensures
            r.id@ == id@,
            r.cells@.len() == 0,
            r.height == 60,
            r.visibility,
            r.prev_row_id is None,
    {
        CreateRowParams {
            id,
            cells: Vec::new(),
            height: 60,
            visibility: true,
            prev_row_id: None,
            timestamp: timestamp(),
        }
    }

    /// Checks the ids, and stamps parameters without a timestamp (0) with `now`.
    pub fn validate_at(self, now: i64) -> (r: Result<CreateRowParams, DatabaseError>)
        ensures
            self.id@.len() == 0 ==> r == Err::<CreateRowParams, DatabaseError>(DatabaseError::EmptyRowId),
            self.id@.len() > 0 && self.prev_row_id is Some && self.prev_row_id->Some_0@.len() == 0
                ==> r == Err::<CreateRowParams, DatabaseError>(DatabaseError::EmptyPrevRowId),
            self.id@.len() > 0 && (self.prev_row_id is None || self.prev_row_id->Some_0@.len() > 0)
                ==> r is Ok && r->Ok_0.id == self.id && r->Ok_0.cells == self.cells && r->Ok_0.height
                == self.height && r->Ok_0.visibility == self.visibility && r->Ok_0.prev_row_id
                == self.prev_row_id && r->Ok_0.timestamp == if self.timestamp == 0 {
                now
            } else {
                self.timestamp
            },
    {
        if self.id.as_str().is_empty() {
            return Err(DatabaseError::EmptyRowId);
        }
        if let Some(prev) = &self.prev_row_id {
            if prev.as_str().is_empty() {
                return Err(DatabaseError::EmptyPrevRowId);
            }
        }
        let mut params = self;
        if params.timestamp == 0 {
            params.timestamp = now;
        }
        Ok(params)
    }

    /// Checks the ids, and stamps parameters without a timestamp (0) with the current time
    /// (see `validate_at`).
    pub fn validate(self) -> (r: Result<CreateRowParams, DatabaseError>)
        ensures
            self.id@.len() == 0 ==> r == Err::<CreateRowParams, DatabaseError>(DatabaseError::EmptyRowId),
            self.id@.len() > 0 && self.prev_row_id is Some && self.prev_row_id->Some_0@.len() == 0
                ==> r == Err::<CreateRowParams, DatabaseError>(DatabaseError::EmptyPrevRowId),
            self.id@.len() > 0 && (self.prev_row_id is None || self.prev_row_id->Some_0@.len() > 0)
                ==> r is Ok && r->Ok_0.id == self.id && r->Ok_0.cells == self.cells && r->Ok_0.height
                == self.height && r->Ok_0.visibility == self.visibility && r->Ok_0.prev_row_id
                == self.prev_row_id && (self.timestamp != 0 ==> r->Ok_0.timestamp == self.timestamp),
    {
        let now = if self.timestamp == 0 {
            timestamp()
        } else {
            0
        };
        self.validate_at(now)
    }
}

/// The height a row has when none is stored.
pub const DEFAULT_ROW_HEIGHT: i32 = 60;

/// The row stored in a row document's data map, from the values read there: `None`
/// without an id; otherwise visible and of height 60 unless stored otherwise, and
/// created/modified at `now` when those times are missing.
pub fn row_from_fields(
    id: Option<String>,
    visibility: Option<bool>,
    height: Option<i64>,
    created_at: Option<i64>,
    modified_at: Option<i64>,
    cells: Cells,
    now: i64,
) -> (r: Option<Row>)
    ensures
        id is None <==> r is None,
        r is Some ==> ({
            let row = r->Some_0;
            &&& row.id == id->Some_0
            &&& row.cells == cells
            &&& row.visibility == match visibility {
                Some(v) => v,
                None => true,
            }
            &&& row.height == match height {
                Some(h) => h as i32,
                None => DEFAULT_ROW_HEIGHT,
            }
            &&& row.created_at == match created_at {
                Some(t) => t,
                None => now,
            }
            &&& row.modified_at == match modified_at {
                Some(t) => t,
                None => now,
            }
        }),
{
    let id = match id {
        Some(id) => id,
        None => return None,
    };
    let visibility = match visibility {
        Some(v) => v,
        None => true,
    };
    let height = match height {
        Some(h) => h as i32,
        None => DEFAULT_ROW_HEIGHT,
    };
    let created_at = match created_at {
        Some(t) => t,
        None => now,
    };
    let modified_at = match modified_at {
        Some(t) => t,
        None => now,
    };
    Some(Row { id, cells, height, visibility, created_at, modified_at })
}

/// Like `row_from_fields`, stamping missing times with the current time.
pub fn row_from_stored_fields(
    id: Option<String>,
    visibility: Option<bool>,
    height: Option<i64>,
    created_at: Option<i64>,
    modified_at: Option<i64>,
    cells: Cells,
) -> (r: Option<Row>)
    ensures
        id is None <==> r is None,
        r is Some ==> r->Some_0.id == id->Some_0 && r->Some_0.cells == cells
            && (visibility is Some ==> r->Some_0.visibility == visibility->Some_0)
            && (height is Some ==> r->Some_0.height == height->Some_0 as i32)
            && (created_at is Some ==> r->Some_0.created_at == created_at->Some_0)
            && (modified_at is Some ==> r->Some_0.modified_at == modified_at->Some_0),
{
    let now = if created_at.is_none() || modified_at.is_none() {
        timestamp()
    } else {
        0
    };
    row_from_fields(id, visibility, height, created_at, modified_at, cells, now)
}

} // verus!
