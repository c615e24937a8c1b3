//! The records that the application stores, the statements that create
//! their tables, and the descent through the folders of a collection.

use crate::adapters::{trim, trimmed};
use crate::text::{same_text, texts_of};
use vstd::prelude::*;
use vstd::string::StringExecFns;

verus! {

/// The statement that creates the table of collections.
pub const API_COLLECTIONS_CREATE_SQL: &'static str = "CREATE TABLE IF NOT EXISTS api_collections (
        id TEXT PRIMARY KEY NOT NULL check (id != ''),
        name TEXT DEFAULT '',
        description TEXT DEFAULT '',
        created_at TEXT DEFAULT '',
        updated_at TEXT DEFAULT ''
    )";

/// The statement that creates the table of folders.
pub const API_FOLDERS_CREATE_SQL: &'static str = "CREATE TABLE IF NOT EXISTS api_folders (
            id TEXT PRIMARY KEY NOT NULL check (id != ''),
            collection TEXT NOT NULL check (collection != ''),
            children TEXT DEFAULT '',
            name TEXT DEFAULT '',
            created_at TEXT DEFAULT '',
            updated_at TEXT DEFAULT ''
        )";

/// The statement that creates the table of API settings.
pub const API_SETTINGS_CREATE_SQL: &'static str = "CREATE TABLE IF NOT EXISTS api_settings (
        id TEXT PRIMARY KEY NOT NULL check (id != ''),
        collection TEXT NOT NULL check (collection != ''),
        name TEXT DEFAULT '',
        category TEXT DEFAULT '',
        setting TEXT DEFAULT '',
        created_at TEXT DEFAULT '',
        updated_at TEXT DEFAULT ''
    )";

/// The statement that creates the table of variables.
pub const VARIABLES_CREATE_SQL: &'static str = "CREATE TABLE IF NOT EXISTS variables (
            id TEXT PRIMARY KEY NOT NULL check (id != ''),
            category TEXT NOT NULL check (category != ''),
            collection TEXT NOT NULL check (collection != ''),
            name TEXT DEFAULT '',
            value TEXT DEFAULT '',
            enabled TEXT DEFAULT '',
            created_at TEXT DEFAULT '',
            updated_at TEXT DEFAULT ''
        )";

/// The statement that creates the table of versions.
pub const VERSIONS_CREATE_SQL: &'static str = "CREATE TABLE IF NOT EXISTS versions (
        id TEXT PRIMARY KEY NOT NULL check (id != ''),
        version TEXT NOT NULL check (version != ''),
        created_at TEXT DEFAULT '',
        updated_at TEXT DEFAULT ''
    )";

/// The statement that creates the table of environments.
pub const ENVIRONMENTS_CREATE_SQL: &'static str = "CREATE TABLE IF NOT EXISTS  environments (
            id TEXT PRIMARY KEY NOT NULL check (id != ''),
            collection TEXT NOT NULL check (collection != ''),
            name TEXT DEFAULT '',
            value TEXT DEFAULT '',
            enabled TEXT DEFAULT '',
            created_at TEXT DEFAULT '',
            updated_at TEXT DEFAULT ''
        )";

/// The statement that lists the environments of one collection.
pub const ENVIRONMENTS_SELECT_SQL: &'static str =
    "SELECT id, collection, name, value, enabled, created_at, updated_at FROM environments WHERE collection = ?1";

/// A collection of API settings.
#[derive(Debug, Clone)]
pub struct APICollection {
    pub id: String,
    pub name: Option<String>,
    pub description: Option<String>,
    pub created_at: Option<String>,
    pub updated_at: Option<String>,
}

/// A folder of a collection; `children` holds the ids of its folders and
/// settings, separated by commas.
#[derive(Debug, Clone)]
pub struct APIFolder {
    pub id: String,
    pub collection: String,
    pub children: Option<String>,
    pub name: Option<String>,
    pub created_at: Option<String>,
    pub updated_at: Option<String>,
}

/// The folders and the settings below a folder.
#[derive(Debug, Clone)]
pub struct APIFolderChildren {
    pub folders: Vec<String>,
    pub settings: Vec<String>,
}

/// The stored description of one API call.
#[derive(Debug, Clone)]
pub struct APISetting {
    pub id: String,
    pub collection: String,
    pub name: Option<String>,
    pub category: Option<String>,
    pub setting: Option<String>,
    pub created_at: Option<String>,
    pub updated_at: Option<String>,
}

/// A variable of a collection.
#[derive(Debug, Clone)]
pub struct Variable {
    pub id: String,
    pub category: String,
    pub collection: String,
    pub name: Option<String>,
    pub value: Option<String>,
    pub enabled: Option<String>,
    pub created_at: Option<String>,
    pub updated_at: Option<String>,
}

/// A version of the application that has run on the data.
#[derive(Debug, Clone)]
pub struct Version {
    pub id: String,
    pub version: String,
    pub created_at: Option<String>,
    pub updated_at: Option<String>,
}

/// An environment value of a collection.
#[derive(Debug, Clone)]
pub struct Environment {
    pub id: String,
    pub collection: String,
    pub name: String,
    pub value: String,
    pub enabled: String,
    pub created_at: String,
    pub updated_at: String,
}

impl Version {
    /// The latest version on record; a version without a number where
    /// none is on record.
    pub fn latest(found: Option<Version>) -> (v: Version)
        ensures
            match found {
                Some(version) => v == version,
                None => v.id@.len() == 0 && v.version@.len() == 0 && v.created_at.is_some()
                    && v.created_at.unwrap()@.len() == 0 && v.updated_at.is_some()
                    && v.updated_at.unwrap()@.len() == 0,
            },
    {
        match found {
            Some(version) => version,
            None => Version {
                id: String::new(),
                version: String::new(),
                created_at: Some(String::new()),
                updated_at: Some(String::new()),
            },
        }
    }
}

/// `text`, or `fallback` where `text` is empty.
pub open spec fn or_else(text: Seq<char>, fallback: Seq<char>) -> Seq<char> {
    if text.len() == 0 {
        fallback
    } else {
        text
    }
}

impl Environment {
    /// The values of the record in the order of its columns, with `now`
    /// in the place of a date that is not set.
    pub open spec fn row(&self, now: Seq<char>) -> Seq<Seq<char>> {
        seq![
            self.id@,
            self.collection@,
            self.name@,
            self.value@,
            self.enabled@,
            or_else(self.created_at@, now),
            or_else(self.updated_at@, now),
        ]
    }

    /// The values to store for the record at the time `now`.
    pub fn values(&self, now: &str) -> (values: Vec<String>)
        ensures
            values@.map_values(|v: String| v@) == self.row(now@),
    {
        let created_at = if self.created_at.as_str().unicode_len() == 0 {
            String::from_str(now)
        } else {
            self.created_at.clone()
        };
        let updated_at = if self.updated_at.as_str().unicode_len() == 0 {
            String::from_str(now)
        } else {
            self.updated_at.clone()
        };
        let mut values: Vec<String> = Vec::new();
        values.push(self.id.clone());
        values.push(self.collection.clone());
        values.push(self.name.clone());
        values.push(self.value.clone());
        values.push(self.enabled.clone());
        values.push(created_at);
        values.push(updated_at);
        proof {
            assert(values@.map_values(|v: String| v@) =~= self.row(now@));
        }
        values
    }

    /// The columns of an environment record, in the order of its fields.
    pub open spec fn columns() -> Seq<Seq<char>> {
        seq![
            "id"@,
            "collection"@,
            "name"@,
            "value"@,
            "enabled"@,
            "created_at"@,
            "updated_at"@,
        ]
    }

    pub fn keys() -> (keys: Vec<String>)
        ensures
            keys@.map_values(|k: String| k@) == Self::columns(),
    {
        let mut keys: Vec<String> = Vec::new();
        keys.push(String::from_str("id"));
        keys.push(String::from_str("collection"));
        keys.push(String::from_str("name"));
        keys.push(String::from_str("value"));
        keys.push(String::from_str("enabled"));
        keys.push(String::from_str("created_at"));
        keys.push(String::from_str("updated_at"));
        proof {
            assert(keys@.map_values(|k: String| k@) =~= Self::columns());
        }
        keys
    }
}

pub fn get_api_collections_create_sql() -> (sql: String)
    ensures
        sql@ == API_COLLECTIONS_CREATE_SQL@,
{
    String::from_str(API_COLLECTIONS_CREATE_SQL)
}

pub fn get_api_folders_create_sql() -> (sql: String)
    ensures
        sql@ == API_FOLDERS_CREATE_SQL@,
{
    String::from_str(API_FOLDERS_CREATE_SQL)
}

pub fn get_api_settings_create_sql() -> (sql: String)
    ensures
        sql@ == API_SETTINGS_CREATE_SQL@,
{
    String::from_str(API_SETTINGS_CREATE_SQL)
}

pub fn get_variables_create_sql() -> (sql: String)
    ensures
        sql@ == VARIABLES_CREATE_SQL@,
{
    String::from_str(VARIABLES_CREATE_SQL)
}

pub fn get_versions_table_create_sql() -> (sql: String)
    ensures
        sql@ == VERSIONS_CREATE_SQL@,
{
    String::from_str(VERSIONS_CREATE_SQL)
}

pub fn get_environments_create_sql() -> (sql: String)
    ensures
        sql@ == ENVIRONMENTS_CREATE_SQL@,
{
    String::from_str(ENVIRONMENTS_CREATE_SQL)
}

pub fn get_environments_select_sql() -> (sql: String)
    ensures
        sql@ == ENVIRONMENTS_SELECT_SQL@,
{
    String::from_str(ENVIRONMENTS_SELECT_SQL)
}

/// The statements that create the tables, in the order in which they
/// are run: versions first, then collections, folders, settings and
/// variables.
pub fn get_init_sql_list() -> (list: Vec<String>)
    ensures
        texts_of(list@) == seq![
            VERSIONS_CREATE_SQL@,
            API_COLLECTIONS_CREATE_SQL@,
            API_FOLDERS_CREATE_SQL@,
            API_SETTINGS_CREATE_SQL@,
            VARIABLES_CREATE_SQL@,
        ],
{
    let mut list: Vec<String> = Vec::new();
    list.push(get_versions_table_create_sql());
    list.push(get_api_collections_create_sql());
    list.push(get_api_folders_create_sql());
    list.push(get_api_settings_create_sql());
    list.push(get_variables_create_sql());
    proof {
        assert(texts_of(list@) =~= seq![
            VERSIONS_CREATE_SQL@,
            API_COLLECTIONS_CREATE_SQL@,
            API_FOLDERS_CREATE_SQL@,
            API_SETTINGS_CREATE_SQL@,
            VARIABLES_CREATE_SQL@,
        ]);
    }
    list
}

pub fn get_table_name_api_collection() -> (name: String)
    ensures
        name@ == "api_collections"@,
{
    String::from_str("api_collections")
}

pub fn get_table_name_api_setting() -> (name: String)
    ensures
        name@ == "api_settings"@,
{
    String::from_str("api_settings")
}

/// The tables of a backup, in the order in which they are written and
/// read back.
pub fn get_export_table_names() -> (names: Vec<String>)
    ensures
        texts_of(names@) == seq![
            "api_collections"@,
            "api_folders"@,
            "api_settings"@,
            "variables"@,
        ],
{
    let mut names: Vec<String> = Vec::new();
    names.push(get_table_name_api_collection());
    names.push(get_table_name_api_folder());
    names.push(get_table_name_api_setting());
    names.push(get_table_name_variable());
    proof {
        assert(texts_of(names@) =~= seq![
            "api_collections"@,
            "api_folders"@,
            "api_settings"@,
            "variables"@,
        ]);
    }
    names
}

/// The name of the backup written on the day `date`.
pub fn export_file_name(date: &str) -> (name: String)
    ensures
        name@ == "cyberapi-backup-"@ + date@ + ".zip"@,
{
    let mut name = String::from_str("cyberapi-backup-");
    name.append(date);
    name.append(".zip");
    name
}

/// The name of the file that holds a table in a backup.
pub fn table_file_name(table: &str) -> (name: String)
    ensures
        name@ == table@ + ".json"@,
{
    let mut name = String::from_str(table);
    name.append(".json");
    name
}

/// The document that holds the records of a table in a backup: the
/// records, each as it is written, separated by commas, in square brackets.
pub fn export_document(records: &Vec<String>) -> (document: String)
    ensures
        document@ == "["@ + comma_joined(texts_of(records@), records@.len() as int) + "]"@,
{
    let mut document = String::from_str("[");
    let joined = join_with_commas(records);
    document.append(joined.as_str());
    document.append("]");
    document
}

pub fn get_table_name_api_folder() -> (name: String)
    ensures
        name@ == "api_folders"@,
{
    String::from_str("api_folders")
}

pub fn get_table_name_variable() -> (name: String)
    ensures
        name@ == "variables"@,
{
    String::from_str("variables")
}

/// The pieces between the commas of `text`, each without the white space
/// at its ends: the piece that begins at `start` and the pieces after it,
/// read from `from` on.
pub open spec fn id_list(text: Seq<char>, start: int, from: int) -> Seq<Seq<char>>
    decreases text.len() - from,
{
    if from >= text.len() {
        seq![trimmed(text.subrange(start, text.len() as int))]
    } else if text[from] == ',' {
        seq![trimmed(text.subrange(start, from))] + id_list(text, from + 1, from + 1)
    } else {
        id_list(text, start, from + 1)
    }
}

/// The first `n` texts joined by commas.
pub open spec fn comma_joined(texts: Seq<Seq<char>>, n: int) -> Seq<char>
    decreases n,
{
    if n <= 0 {
        Seq::empty()
    } else if n == 1 {
        texts[0]
    } else {
        comma_joined(texts, n - 1) + ","@ + texts[n - 1]
    }
}

/// The children text of `folder`, if it has one.
pub open spec fn children_of(folder: APIFolder) -> Option<Seq<char>> {
    match folder.children {
        Some(text) => Some(text@),
        None => None,
    }
}

/// What the list says of the id `id` among its first `n` folders: nothing
/// where none of them has it, else the children of the last that has.
pub open spec fn folder_entry(all: Seq<APIFolder>, id: Seq<char>, n: int) -> Option<
    Option<Seq<char>>,
>
    decreases n,
{
    if n <= 0 {
        None
    } else if all[n - 1].id@ == id {
        Some(children_of(all[n - 1]))
    } else {
        folder_entry(all, id, n - 1)
    }
}

/// The children text from which the descent below `id` starts: that of
/// the last of the first `n` folders that has the id and any children
/// text; empty where there is none.
pub open spec fn first_children(all: Seq<APIFolder>, id: Seq<char>, n: int) -> Seq<char>
    decreases n,
{
    if n <= 0 {
        Seq::empty()
    } else if all[n - 1].id@ == id && all[n - 1].children.is_some() {
        children_of(all[n - 1]).unwrap()
    } else {
        first_children(all, id, n - 1)
    }
}

/// The state of a descent: the folders and the settings found, and the
/// children texts still to visit.
pub struct Walk {
    pub folders: Seq<Seq<char>>,
    pub settings: Seq<Seq<char>>,
    pub next: Seq<Seq<char>>,
}

/// The descent after the first `n` of `ids` were visited: an id of a
/// folder is a folder found, and its children, if it has any, are to be
/// visited; any other id is a setting found.
pub open spec fn visited(all: Seq<APIFolder>, ids: Seq<Seq<char>>, n: int, start: Walk) -> Walk
    decreases n,
{
    if n <= 0 {
        start
    } else {
        let walk = visited(all, ids, n - 1, start);
        let id = ids[n - 1];
        match folder_entry(all, id, all.len() as int) {
            None => Walk { settings: walk.settings.push(id), ..walk },
            Some(None) => Walk { folders: walk.folders.push(id), ..walk },
            Some(Some(children)) => if children.len() == 0 {
                Walk { folders: walk.folders.push(id), ..walk }
            } else {
                Walk { folders: walk.folders.push(id), next: walk.next.push(children), ..walk }
            },
        }
    }
}

/// The folders and settings found by a descent of at most `rounds` levels
/// that starts from the children text `children`, level by level.
pub open spec fn descended(
    all: Seq<APIFolder>,
    children: Seq<char>,
    rounds: nat,
    folders: Seq<Seq<char>>,
    settings: Seq<Seq<char>>,
) -> (Seq<Seq<char>>, Seq<Seq<char>>)
    decreases rounds,
{
    if rounds == 0 || children.len() == 0 {
        (folders, settings)
    } else {
        let ids = id_list(children, 0, 0);
        let walk = visited(
            all,
            ids,
            ids.len() as int,
            Walk { folders, settings, next: Seq::empty() },
        );
        descended(
            all,
            comma_joined(walk.next, walk.next.len() as int),
            (rounds - 1) as nat,
            walk.folders,
            walk.settings,
        )
    }
}

/// The ids that a children text lists.
pub fn split_ids(text: &str) -> (ids: Vec<String>)
    ensures
        texts_of(ids@) == id_list(text@, 0, 0),
{
    let n: usize = text.unicode_len();
    let mut ids: Vec<String> = Vec::new();
    let mut start: usize = 0;
    let mut i: usize = 0;
    proof {
        assert(texts_of(ids@) + id_list(text@, 0, 0) =~= id_list(text@, 0, 0));
    }
    while i < n
        invariant
            n == text@.len(),
            start <= i <= n,
            texts_of(ids@) + id_list(text@, start as int, i as int) == id_list(text@, 0, 0),
        decreases n - i,
    {
        if text.get_char(i) == ',' {
            let id = trim(text.substring_char(start, i));
            let ghost before = texts_of(ids@);
            ids.push(id);
            proof {
                assert(texts_of(ids@) =~= before.push(id@));
                assert(before.push(id@) + id_list(text@, i + 1, i + 1) =~= before + id_list(
                    text@,
                    start as int,
                    i as int,
                ));
            }
            start = i + 1;
        }
        i = i + 1;
    }
    let id = trim(text.substring_char(start, n));
    let ghost before = texts_of(ids@);
    ids.push(id);
    proof {
        assert(texts_of(ids@) =~= before + id_list(text@, start as int, n as int));
    }
    ids
}

/// The texts joined by commas.
pub fn join_with_commas(texts: &Vec<String>) -> (joined: String)
    ensures
        joined@ == comma_joined(texts_of(texts@), texts@.len() as int),
{
    let mut joined = String::new();
    let mut i: usize = 0;
    while i < texts.len()
        invariant
            i <= texts@.len(),
            joined@ == comma_joined(texts_of(texts@), i as int),
        decreases texts@.len() - i,
    {
        let ghost before = joined@;
        if i > 0 {
            joined.append(",");
        }
        joined.append(texts[i].as_str());
        proof {
            assert(texts_of(texts@)[i as int] == texts@[i as int]@);
            if i == 0 {
                assert(joined@ =~= texts@[0]@);
            } else {
                assert(joined@ =~= before + ","@ + texts@[i as int]@);
            }
        }
        i = i + 1;
    }
    joined
}

/// The position of the last folder with the id `id`, if there is one.
fn find_folder(all: &Vec<APIFolder>, id: &str) -> (at: Option<usize>)
    ensures
        match at {
            Some(i) => i < all@.len() && all@[i as int].id@ == id@ && folder_entry(
                all@,
                id@,
                all@.len() as int,
            ) == Some(children_of(all@[i as int])),
            None => folder_entry(all@, id@, all@.len() as int).is_none(),
        },
{
    let mut i: usize = all.len();
    while i > 0
        invariant
            i <= all@.len(),
            folder_entry(all@, id@, all@.len() as int) == folder_entry(all@, id@, i as int),
        decreases i,
    {
        if same_text(all[i - 1].id.as_str(), id) {
            return Some(i - 1);
        }
        i = i - 1;
    }
    None
}

/// The children text from which the descent below `id` starts.
fn starting_children(all: &Vec<APIFolder>, id: &str) -> (children: String)
    ensures
        children@ == first_children(all@, id@, all@.len() as int),
{
    let mut i: usize = all.len();
    while i > 0
        invariant
            i <= all@.len(),
            first_children(all@, id@, all@.len() as int) == first_children(all@, id@, i as int),
        decreases i,
    {
        if same_text(all[i - 1].id.as_str(), id) {
            match &all[i - 1].children {
                Some(text) => {
                    return text.clone();
                },
                None => {},
            }
        }
        i = i - 1;
    }
    String::new()
}

/// Everything below the folder `id` among the folders `all` of its
/// collection: the folders and the settings that its children name, those
/// that the children of these folders name, and so on, level by level. An
/// id that no folder has counts as a setting. The descent goes at most one
/// level deeper than there are folders, which reaches everything where no
/// folder lies below itself.
pub fn list_api_folder_all_children(all: &Vec<APIFolder>, id: &str) -> (found: APIFolderChildren)
    ensures
        (texts_of(found.folders@), texts_of(found.settings@)) == descended(
            all@,
            first_children(all@, id@, all@.len() as int),
            (all@.len() + 1) as nat,
            Seq::empty(),
            Seq::empty(),
        ),
{
    let mut folders: Vec<String> = Vec::new();
    let mut settings: Vec<String> = Vec::new();
    let mut children = starting_children(all, id);
    let mut rounds: usize = all.len();
    let mut last_round = false;
    let ghost goal = descended(
        all@,
        children@,
        (all@.len() + 1) as nat,
        Seq::empty(),
        Seq::empty(),
    );
    proof {
        assert(texts_of(folders@) =~= Seq::empty());
        assert(texts_of(settings@) =~= Seq::empty());
    }
    while !last_round && children.as_str().unicode_len() != 0
        invariant
            rounds <= all@.len(),
            goal == descended(
                all@,
                children@,
                (if last_round {
                    0
                } else {
                    rounds + 1
                }) as nat,
                texts_of(folders@),
                texts_of(settings@),
            ),
        decreases
                (if last_round {
                    0
                } else {
                    rounds + 1
                }),
    {
        let ids = split_ids(children.as_str());
        let mut next: Vec<String> = Vec::new();
        let ghost start = Walk {
            folders: texts_of(folders@),
            settings: texts_of(settings@),
            next: Seq::empty(),
        };
        proof {
            assert(texts_of(next@) =~= Seq::empty());
        }
        let mut i: usize = 0;
        while i < ids.len()
            invariant
                i <= ids@.len(),
                visited(all@, texts_of(ids@), i as int, start) == (Walk {
                    folders: texts_of(folders@),
                    settings: texts_of(settings@),
                    next: texts_of(next@),
                }),
            decreases ids@.len() - i,
        {
            let ghost id_text = ids@[i as int]@;
            let ghost found_folders = texts_of(folders@);
            let ghost found_settings = texts_of(settings@);
            let ghost to_visit = texts_of(next@);
            proof {
                assert(texts_of(ids@)[i as int] == id_text);
            }
            match find_folder(all, ids[i].as_str()) {
                Some(at) => {
                    folders.push(ids[i].clone());
                    proof {
                        assert(texts_of(folders@) =~= found_folders.push(id_text));
                    }
                    match &all[at].children {
                        Some(text) => {
                            if text.as_str().unicode_len() != 0 {
                                next.push(text.clone());
                                proof {
                                    assert(texts_of(next@) =~= to_visit.push(text@));
                                }
                            }
                        },
                        None => {},
                    }
                },
                None => {
                    settings.push(ids[i].clone());
                    proof {
                        assert(texts_of(settings@) =~= found_settings.push(id_text));
                    }
                },
            }
            i = i + 1;
        }
        children = join_with_commas(&next);
        if rounds == 0 {
            last_round = true;
        } else {
            rounds = rounds - 1;
        }
    }
    APIFolderChildren { folders, settings }
}

/// Some folder of the list has the id `id`.
pub open spec fn is_folder(all: Seq<APIFolder>, id: Seq<char>) -> bool {
    folder_entry(all, id, all.len() as int).is_some()
}

/// Every id of `folders` is the id of a folder, and none of `settings` is.
pub open spec fn sorted_apart(
    all: Seq<APIFolder>,
    folders: Seq<Seq<char>>,
    settings: Seq<Seq<char>>,
) -> bool {
    &&& forall|i: int| 0 <= i < folders.len() ==> is_folder(all, #[trigger] folders[i])
    &&& forall|i: int| 0 <= i < settings.len() ==> !is_folder(all, #[trigger] settings[i])
}

/// Visiting ids drops nothing that was found, finds each id visited, as a
/// folder where a folder has the id and as a setting where none has, and
/// finds nothing else.
pub proof fn lemma_visited(all: Seq<APIFolder>, ids: Seq<Seq<char>>, n: int, start: Walk)
    requires
        0 <= n <= ids.len(),
    ensures
        start.folders.is_prefix_of(visited(all, ids, n, start).folders),
        start.settings.is_prefix_of(visited(all, ids, n, start).settings),
        visited(all, ids, n, start).folders.len() + visited(all, ids, n, start).settings.len()
            == start.folders.len() + start.settings.len() + n,
        forall|j: int|
            0 <= j < n ==> (if is_folder(all, #[trigger] ids[j]) {
                visited(all, ids, n, start).folders.contains(ids[j])
            } else {
                visited(all, ids, n, start).settings.contains(ids[j])
            }),
        sorted_apart(all, start.folders, start.settings) ==> sorted_apart(
            all,
            visited(all, ids, n, start).folders,
            visited(all, ids, n, start).settings,
        ),
    decreases n,
{
    if n > 0 {
        lemma_visited(all, ids, n - 1, start);
        let before = visited(all, ids, n - 1, start);
        let after = visited(all, ids, n, start);
        let id = ids[n - 1];
        if is_folder(all, id) {
            assert(after.folders == before.folders.push(id));
            assert(after.settings == before.settings);
            assert(after.folders[before.folders.len() as int] == id);
        } else {
            assert(after.settings == before.settings.push(id));
            assert(after.folders == before.folders);
            assert(after.settings[before.settings.len() as int] == id);
        }
        assert forall|j: int| 0 <= j < n implies (if is_folder(all, #[trigger] ids[j]) {
            after.folders.contains(ids[j])
        } else {
            after.settings.contains(ids[j])
        }) by {
            if j < n - 1 {
                if is_folder(all, ids[j]) {
                    let at = choose|at: int|
                        0 <= at < before.folders.len() && before.folders[at] == ids[j];
                    assert(after.folders[at] == ids[j]);
                } else {
                    let at = choose|at: int|
                        0 <= at < before.settings.len() && before.settings[at] == ids[j];
                    assert(after.settings[at] == ids[j]);
                }
            }
        }
        if sorted_apart(all, start.folders, start.settings) {
            assert forall|i: int| 0 <= i < after.folders.len() implies is_folder(
                all,
                #[trigger] after.folders[i],
            ) by {
                if i < before.folders.len() {
                    assert(after.folders[i] == before.folders[i]);
                }
            }
            assert forall|i: int| 0 <= i < after.settings.len() implies !is_folder(
                all,
                #[trigger] after.settings[i],
            ) by {
                if i < before.settings.len() {
                    assert(after.settings[i] == before.settings[i]);
                }
            }
        }
    }
}

/// A descent drops nothing that was found before it, and keeps folders
/// and settings apart: what it finds as a folder is the id of a folder,
/// and what it finds as a setting is the id of none.
pub proof fn lemma_descended(
    all: Seq<APIFolder>,
    children: Seq<char>,
    rounds: nat,
    folders: Seq<Seq<char>>,
    settings: Seq<Seq<char>>,
)
    ensures
        folders.is_prefix_of(descended(all, children, rounds, folders, settings).0),
        settings.is_prefix_of(descended(all, children, rounds, folders, settings).1),
        sorted_apart(all, folders, settings) ==> sorted_apart(
            all,
            descended(all, children, rounds, folders, settings).0,
            descended(all, children, rounds, folders, settings).1,
        ),
    decreases rounds,
{
    if rounds > 0 && children.len() > 0 {
        let ids = id_list(children, 0, 0);
        let start = Walk { folders, settings, next: Seq::empty() };
        let walk = visited(all, ids, ids.len() as int, start);
        lemma_visited(all, ids, ids.len() as int, start);
        lemma_descended(
            all,
            comma_joined(walk.next, walk.next.len() as int),
            (rounds - 1) as nat,
            walk.folders,
            walk.settings,
        );
    }
}

/// Every id that the children text of the start lists is found: as a
/// folder where a folder has the id, as a setting where none has.
pub proof fn lemma_listed_children_are_found(
    all: Seq<APIFolder>,
    children: Seq<char>,
    rounds: nat,
    j: int,
)
    requires
        rounds > 0,
        children.len() > 0,
        0 <= j < id_list(children, 0, 0).len(),
    ensures
        ({
            let found = descended(all, children, rounds, Seq::empty(), Seq::empty());
            let id = id_list(children, 0, 0)[j];
            if is_folder(all, id) {
                found.0.contains(id)
            } else {
                found.1.contains(id)
            }
        }),
{
    let ids = id_list(children, 0, 0);
    let start = Walk { folders: Seq::empty(), settings: Seq::empty(), next: Seq::empty() };
    let walk = visited(all, ids, ids.len() as int, start);
    lemma_visited(all, ids, ids.len() as int, start);
    let rest = comma_joined(walk.next, walk.next.len() as int);
    lemma_descended(all, rest, (rounds - 1) as nat, walk.folders, walk.settings);
    let found = descended(all, children, rounds, Seq::empty(), Seq::empty());
    let id = ids[j];
    if is_folder(all, id) {
        let at = choose|at: int| 0 <= at < walk.folders.len() && walk.folders[at] == id;
        assert(found.0[at] == id);
    } else {
        let at = choose|at: int| 0 <= at < walk.settings.len() && walk.settings[at] == id;
        assert(found.1[at] == id);
    }
}

/// The ids of a text are those of its part behind a prefix, where the
/// reading begins behind the prefix.
proof fn lemma_id_list_behind(prefix: Seq<char>, text: Seq<char>, start: int, from: int)
    requires
        0 <= start <= from <= text.len(),
    ensures
        id_list(prefix + text, prefix.len() + start, prefix.len() + from) == id_list(
            text,
            start,
            from,
        ),
    decreases text.len() - from,
{
    let whole = prefix + text;
    let p = prefix.len() as int;
    if from >= text.len() {
        assert(whole.subrange(p + start, whole.len() as int) =~= text.subrange(
            start,
            text.len() as int,
        ));
    } else {
        assert(whole[p + from] == text[from]);
        if text[from] == ',' {
            assert(whole.subrange(p + start, p + from) =~= text.subrange(start, from));
            lemma_id_list_behind(prefix, text, from + 1, from + 1);
        } else {
            lemma_id_list_behind(prefix, text, start, from + 1);
        }
    }
}

/// The ids of two texts joined by a comma are the ids of the first and
/// then the ids of the second.
proof fn lemma_id_list_of_two(a: Seq<char>, b: Seq<char>, start: int, from: int)
    requires
        0 <= start <= from <= a.len(),
    ensures
        id_list(a + seq![','] + b, start, from) == id_list(a, start, from) + id_list(b, 0, 0),
    decreases a.len() - from,
{
    let whole = a + seq![','] + b;
    if from == a.len() {
        assert(whole[from] == ',');
        assert(whole.subrange(start, from) =~= a.subrange(start, a.len() as int));
        lemma_id_list_behind(a + seq![','], b, 0, 0);
        assert(id_list(a, start, from) =~= seq![trimmed(a.subrange(start, a.len() as int))]);
    } else {
        assert(whole[from] == a[from]);
        if a[from] == ',' {
            assert(whole.subrange(start, from) =~= a.subrange(start, from));
            lemma_id_list_of_two(a, b, from + 1, from + 1);
            assert(id_list(whole, start, from) =~= id_list(a, start, from) + id_list(b, 0, 0));
        } else {
            lemma_id_list_of_two(a, b, start, from + 1);
        }
    }
}

/// Every id that one of the texts lists is an id of the texts joined by
/// commas.
pub proof fn lemma_joined_lists_every_id(texts: Seq<Seq<char>>, n: int, j: int, i: int)
    requires
        0 <= j < n <= texts.len(),
        0 <= i < id_list(texts[j], 0, 0).len(),
    ensures
        id_list(comma_joined(texts, n), 0, 0).contains(id_list(texts[j], 0, 0)[i]),
    decreases n,
{
    reveal_strlit(",");
    let id = id_list(texts[j], 0, 0)[i];
    if n == 1 {
        assert(id_list(comma_joined(texts, n), 0, 0)[i] == id);
    } else {
        let head = comma_joined(texts, n - 1);
        let last = texts[n - 1];
        assert(","@ =~= seq![',']);
        assert(comma_joined(texts, n) == head + seq![','] + last);
        lemma_id_list_of_two(head, last, 0, 0);
        let first = id_list(head, 0, 0);
        let both = id_list(comma_joined(texts, n), 0, 0);
        assert(both == first + id_list(last, 0, 0));
        if j == n - 1 {
            assert(both[first.len() + i] == id);
        } else {
            lemma_joined_lists_every_id(texts, n - 1, j, i);
            let at = choose|at: int| 0 <= at < first.len() && first[at] == id;
            assert(both[at] == id);
        }
    }
}

/// The children texts that a visit leaves to be visited do not depend on
/// what was found before; none of them is empty, if none was; and the
/// children of every folder visited are among them, unless it has none.
pub proof fn lemma_visited_next(
    all: Seq<APIFolder>,
    ids: Seq<Seq<char>>,
    n: int,
    start: Walk,
    other: Walk,
)
    requires
        0 <= n <= ids.len(),
        start.next == other.next,
    ensures
        visited(all, ids, n, start).next == visited(all, ids, n, other).next,
        (forall|k: int| 0 <= k < start.next.len() ==> (#[trigger] start.next[k]).len() > 0)
            ==> forall|k: int|
            0 <= k < visited(all, ids, n, start).next.len() ==> (#[trigger] visited(
                all,
                ids,
                n,
                start,
            ).next[k]).len() > 0,
        forall|j: int|
            0 <= j < n ==> (match folder_entry(all, #[trigger] ids[j], all.len() as int) {
                Some(Some(text)) => text.len() > 0 ==> visited(all, ids, n, start).next.contains(
                    text,
                ),
                _ => true,
            }),
    decreases n,
{
    if n > 0 {
        lemma_visited_next(all, ids, n - 1, start, other);
        let before = visited(all, ids, n - 1, start).next;
        let after = visited(all, ids, n, start).next;
        assert(before.is_prefix_of(after)) by {
            match folder_entry(all, ids[n - 1], all.len() as int) {
                Some(Some(text)) => {
                    if text.len() > 0 {
                        assert(after == before.push(text));
                    }
                },
                _ => {},
            }
        }
        assert forall|j: int| 0 <= j < n implies (match folder_entry(
            all,
            #[trigger] ids[j],
            all.len() as int,
        ) {
            Some(Some(text)) => text.len() > 0 ==> after.contains(text),
            _ => true,
        }) by {
            match folder_entry(all, ids[j], all.len() as int) {
                Some(Some(text)) => {
                    if text.len() > 0 {
                        if j < n - 1 {
                            let at = choose|at: int| 0 <= at < before.len() && before[at] == text;
                            assert(after[at] == text);
                        } else {
                            assert(after[before.len() as int] == text);
                        }
                    }
                },
                _ => {},
            }
        }
        if forall|k: int| 0 <= k < start.next.len() ==> (#[trigger] start.next[k]).len() > 0 {
            assert forall|k: int| 0 <= k < after.len() implies (#[trigger] after[k]).len()
                > 0 by {
                if k < before.len() {
                    assert(after[k] == before[k]);
                }
            }
        }
    }
}

/// The children text that a descent visits after `text`: the children of
/// the folders that `text` lists, joined by commas.
pub open spec fn next_children(all: Seq<APIFolder>, text: Seq<char>) -> Seq<char> {
    let ids = id_list(text, 0, 0);
    let walk = visited(
        all,
        ids,
        ids.len() as int,
        Walk { folders: Seq::empty(), settings: Seq::empty(), next: Seq::empty() },
    );
    comma_joined(walk.next, walk.next.len() as int)
}

/// The children text on level `n` below the children text `children`:
/// the text itself on level 0, and on each further level the children of
/// the folders of the level above. Below an empty level all are empty.
pub open spec fn level_children(all: Seq<APIFolder>, children: Seq<char>, n: nat) -> Seq<char>
    decreases n,
{
    if n == 0 {
        children
    } else if children.len() == 0 {
        Seq::empty()
    } else {
        level_children(all, next_children(all, children), (n - 1) as nat)
    }
}

/// Texts of which none is empty, and at least one is there, join to a
/// text that is not empty.
proof fn lemma_joined_is_not_empty(texts: Seq<Seq<char>>, n: int)
    requires
        0 < n <= texts.len(),
        forall|k: int| 0 <= k < texts.len() ==> (#[trigger] texts[k]).len() > 0,
    ensures
        comma_joined(texts, n).len() > 0,
{
    reveal_strlit(",");
    if n > 1 {
        assert(comma_joined(texts, n) == comma_joined(texts, n - 1) + ","@ + texts[n - 1]);
    }
}

/// Each level holds the children of the folders of the level above.
proof fn lemma_level_step(all: Seq<APIFolder>, children: Seq<char>, n: nat)
    requires
        level_children(all, children, n).len() > 0,
    ensures
        level_children(all, children, n + 1) == next_children(
            all,
            level_children(all, children, n),
        ),
    decreases n,
{
    let below = next_children(all, children);
    if n == 0 {
        assert(level_children(all, below, 0) == below);
        assert(level_children(all, children, 1) == level_children(all, below, 0));
    } else {
        assert(children.len() > 0);
        assert(level_children(all, children, n) == level_children(all, below, (n - 1) as nat));
        lemma_level_step(all, below, (n - 1) as nat);
        assert(level_children(all, children, n + 1) == level_children(all, below, n));
    }
}

/// Every id that a level within the reach of the descent lists is found:
/// as a folder where a folder has the id, as a setting where none has.
pub proof fn lemma_level_is_found(
    all: Seq<APIFolder>,
    children: Seq<char>,
    rounds: nat,
    folders: Seq<Seq<char>>,
    settings: Seq<Seq<char>>,
    n: nat,
    j: int,
)
    requires
        n < rounds,
        level_children(all, children, n).len() > 0,
        0 <= j < id_list(level_children(all, children, n), 0, 0).len(),
    ensures
        ({
            let found = descended(all, children, rounds, folders, settings);
            let id = id_list(level_children(all, children, n), 0, 0)[j];
            if is_folder(all, id) {
                found.0.contains(id)
            } else {
                found.1.contains(id)
            }
        }),
    decreases n,
{
    let ids = id_list(children, 0, 0);
    let start = Walk { folders, settings, next: Seq::empty() };
    let blank = Walk { folders: Seq::empty(), settings: Seq::empty(), next: Seq::empty() };
    let walk = visited(all, ids, ids.len() as int, start);
    let rest = comma_joined(walk.next, walk.next.len() as int);
    lemma_visited_next(all, ids, ids.len() as int, start, blank);
    assert(rest == next_children(all, children));
    let found = descended(all, children, rounds, folders, settings);
    if n == 0 {
        lemma_visited(all, ids, ids.len() as int, start);
        lemma_descended(all, rest, (rounds - 1) as nat, walk.folders, walk.settings);
        let id = ids[j];
        if is_folder(all, id) {
            let at = choose|at: int| 0 <= at < walk.folders.len() && walk.folders[at] == id;
            assert(found.0[at] == id);
        } else {
            let at = choose|at: int| 0 <= at < walk.settings.len() && walk.settings[at] == id;
            assert(found.1[at] == id);
        }
    } else {
        lemma_level_is_found(
            all,
            rest,
            (rounds - 1) as nat,
            walk.folders,
            walk.settings,
            (n - 1) as nat,
            j,
        );
    }
}

/// What a folder of one level lists among its children, the next level lists.
pub proof fn lemma_children_are_on_the_next_level(
    all: Seq<APIFolder>,
    children: Seq<char>,
    n: nat,
    j: int,
    text: Seq<char>,
    i: int,
)
    requires
        level_children(all, children, n).len() > 0,
        0 <= j < id_list(level_children(all, children, n), 0, 0).len(),
        folder_entry(all, id_list(level_children(all, children, n), 0, 0)[j], all.len() as int)
            == Some(Some(text)),
        0 <= i < id_list(text, 0, 0).len(),
        text.len() > 0,
    ensures
        level_children(all, children, n + 1).len() > 0,
        id_list(level_children(all, children, n + 1), 0, 0).contains(id_list(text, 0, 0)[i]),
{
    let level = level_children(all, children, n);
    lemma_level_step(all, children, n);
    let ids = id_list(level, 0, 0);
    let blank = Walk { folders: Seq::empty(), settings: Seq::empty(), next: Seq::empty() };
    let walk = visited(all, ids, ids.len() as int, blank);
    lemma_visited_next(all, ids, ids.len() as int, blank, blank);
    assert(walk.next.contains(text));
    let k = choose|k: int| 0 <= k < walk.next.len() && walk.next[k] == text;
    lemma_joined_is_not_empty(walk.next, walk.next.len() as int);
    lemma_joined_lists_every_id(walk.next, walk.next.len() as int, k, i);
}

/// Below a folder that the descent finds above its last level, everything
/// is found: each id that the folder lists among its children, as a folder
/// where a folder has the id, as a setting where none has.
pub proof fn lemma_children_of_a_folder_are_found(
    all: Seq<APIFolder>,
    children: Seq<char>,
    rounds: nat,
    n: nat,
    j: int,
    text: Seq<char>,
    i: int,
)
    requires
        n + 1 < rounds,
        level_children(all, children, n).len() > 0,
        0 <= j < id_list(level_children(all, children, n), 0, 0).len(),
        folder_entry(all, id_list(level_children(all, children, n), 0, 0)[j], all.len() as int)
            == Some(Some(text)),
        0 <= i < id_list(text, 0, 0).len(),
        text.len() > 0,
    ensures
        ({
            let found = descended(all, children, rounds, Seq::empty(), Seq::empty());
            let id = id_list(text, 0, 0)[i];
            if is_folder(all, id) {
                found.0.contains(id)
            } else {
                found.1.contains(id)
            }
        }),
{
    lemma_children_are_on_the_next_level(all, children, n, j, text, i);
    let next = id_list(level_children(all, children, n + 1), 0, 0);
    let id = id_list(text, 0, 0)[i];
    let m = choose|m: int| 0 <= m < next.len() && next[m] == id;
    lemma_level_is_found(all, children, rounds, Seq::empty(), Seq::empty(), (n + 1) as nat, m);
}

/// The level `n` below `children` is not empty and lists `id` as its `j`th id.
pub open spec fn on_level(
    all: Seq<APIFolder>,
    children: Seq<char>,
    n: nat,
    j: int,
    id: Seq<char>,
) -> bool {
    &&& level_children(all, children, n).len() > 0
    &&& 0 <= j < id_list(level_children(all, children, n), 0, 0).len()
    &&& id_list(level_children(all, children, n), 0, 0)[j] == id
}

/// One of the first `rounds` levels below `children` lists `id`.
pub open spec fn within_reach(all: Seq<APIFolder>, children: Seq<char>, rounds: nat, id: Seq<char>)
    -> bool {
    exists|n: nat, j: int| n < rounds && #[trigger] on_level(all, children, n, j, id)
}

/// What a visit finds beyond what was found before is among the ids visited.
proof fn lemma_visited_finds_ids_only(
    all: Seq<APIFolder>,
    ids: Seq<Seq<char>>,
    n: int,
    start: Walk,
)
    requires
        0 <= n <= ids.len(),
    ensures
        forall|k: int|
            start.folders.len() <= k < visited(all, ids, n, start).folders.len() ==> exists|j: int|
                0 <= j < n && #[trigger] ids[j] == #[trigger] visited(all, ids, n, start).folders[k],
        forall|k: int|
            start.settings.len() <= k < visited(all, ids, n, start).settings.len() ==> exists|
                j: int,
            |
                0 <= j < n && #[trigger] ids[j] == #[trigger] visited(
                    all,
                    ids,
                    n,
                    start,
                ).settings[k],
    decreases n,
{
    if n > 0 {
        lemma_visited_finds_ids_only(all, ids, n - 1, start);
        lemma_visited(all, ids, n - 1, start);
        let before = visited(all, ids, n - 1, start);
        let after = visited(all, ids, n, start);
        assert forall|k: int| start.folders.len() <= k < after.folders.len() implies exists|
            j: int,
        |
            0 <= j < n && #[trigger] ids[j] == #[trigger] after.folders[k] by {
            if k < before.folders.len() {
                assert(after.folders[k] == before.folders[k]);
                let j = choose|j: int| 0 <= j < n - 1 && #[trigger] ids[j] == before.folders[k];
                assert(ids[j] == after.folders[k]);
            } else {
                assert(ids[n - 1] == after.folders[k]);
            }
        }
        assert forall|k: int| start.settings.len() <= k < after.settings.len() implies exists|
            j: int,
        |
            0 <= j < n && #[trigger] ids[j] == #[trigger] after.settings[k] by {
            if k < before.settings.len() {
                assert(after.settings[k] == before.settings[k]);
                let j = choose|j: int| 0 <= j < n - 1 && #[trigger] ids[j] == before.settings[k];
                assert(ids[j] == after.settings[k]);
            } else {
                assert(ids[n - 1] == after.settings[k]);
            }
        }
    }
}

/// A descent finds nothing but what the levels within its reach list.
pub proof fn lemma_found_is_within_reach(
    all: Seq<APIFolder>,
    children: Seq<char>,
    rounds: nat,
    folders: Seq<Seq<char>>,
    settings: Seq<Seq<char>>,
)
    ensures
        forall|k: int|
            folders.len() <= k < descended(all, children, rounds, folders, settings).0.len()
                ==> within_reach(
                all,
                children,
                rounds,
                #[trigger] descended(all, children, rounds, folders, settings).0[k],
            ),
        forall|k: int|
            settings.len() <= k < descended(all, children, rounds, folders, settings).1.len()
                ==> within_reach(
                all,
                children,
                rounds,
                #[trigger] descended(all, children, rounds, folders, settings).1[k],
            ),
    decreases rounds,
{
    if rounds > 0 && children.len() > 0 {
        let ids = id_list(children, 0, 0);
        let start = Walk { folders, settings, next: Seq::empty() };
        let blank = Walk { folders: Seq::empty(), settings: Seq::empty(), next: Seq::empty() };
        let walk = visited(all, ids, ids.len() as int, start);
        let rest = comma_joined(walk.next, walk.next.len() as int);
        lemma_visited_next(all, ids, ids.len() as int, start, blank);
        assert(rest == next_children(all, children));
        lemma_visited(all, ids, ids.len() as int, start);
        lemma_visited_finds_ids_only(all, ids, ids.len() as int, start);
        lemma_descended(all, rest, (rounds - 1) as nat, walk.folders, walk.settings);
        lemma_found_is_within_reach(all, rest, (rounds - 1) as nat, walk.folders, walk.settings);
        let found = descended(all, children, rounds, folders, settings);
        assert(level_children(all, children, 0) == children);
        assert forall|k: int| folders.len() <= k < found.0.len() implies within_reach(
            all,
            children,
            rounds,
            #[trigger] found.0[k],
        ) by {
            let id = found.0[k];
            if k < walk.folders.len() {
                assert(walk.folders[k] == id);
                let j = choose|j: int| 0 <= j < ids.len() && #[trigger] ids[j] == walk.folders[k];
                assert(on_level(all, children, 0, j, id));
            } else {
                assert(within_reach(all, rest, (rounds - 1) as nat, id));
                let (n, j) = choose|n: nat, j: int|
                    n < rounds - 1 && #[trigger] on_level(all, rest, n, j, id);
                assert(level_children(all, children, n + 1) == level_children(all, rest, n));
                assert(on_level(all, children, n + 1, j, id));
            }
        }
        assert forall|k: int| settings.len() <= k < found.1.len() implies within_reach(
            all,
            children,
            rounds,
            #[trigger] found.1[k],
        ) by {
            let id = found.1[k];
            if k < walk.settings.len() {
                assert(walk.settings[k] == id);
                let j = choose|j: int| 0 <= j < ids.len() && #[trigger] ids[j] == walk.settings[k];
                assert(on_level(all, children, 0, j, id));
            } else {
                assert(within_reach(all, rest, (rounds - 1) as nat, id));
                let (n, j) = choose|n: nat, j: int|
                    n < rounds - 1 && #[trigger] on_level(all, rest, n, j, id);
                assert(level_children(all, children, n + 1) == level_children(all, rest, n));
                assert(on_level(all, children, n + 1, j, id));
            }
        }
    }
}

/// The children text of the folder `id`; empty where no folder has the id
/// or the folder has no children text.
pub open spec fn children_text(all: Seq<APIFolder>, id: Seq<char>) -> Seq<char> {
    match folder_entry(all, id, all.len() as int) {
        Some(Some(text)) => text,
        _ => Seq::empty(),
    }
}

/// The folder `id` lists children.
pub open spec fn has_children(all: Seq<APIFolder>, id: Seq<char>) -> bool {
    children_text(all, id).len() > 0
}

/// The folder `parent` lists `child` among its children.
pub open spec fn lists_child(all: Seq<APIFolder>, parent: Seq<char>, child: Seq<char>) -> bool {
    has_children(all, parent) && id_list(children_text(all, parent), 0, 0).contains(child)
}

/// The folder at `k` in the chain lists the next one among its children.
pub open spec fn linked(all: Seq<APIFolder>, chain: Seq<Seq<char>>, k: int) -> bool {
    lists_child(all, chain[k], chain[k + 1])
}

/// A chain of folders: each lists children, and each but the first is
/// listed among the children of the one before it.
pub open spec fn is_chain(all: Seq<APIFolder>, chain: Seq<Seq<char>>) -> bool {
    &&& forall|k: int| 0 <= k < chain.len() ==> has_children(all, #[trigger] chain[k])
    &&& forall|k: int| 0 <= k < chain.len() - 1 ==> #[trigger] linked(all, chain, k)
}

/// No folder lies below itself: no chain of folders comes by the same id twice.
pub open spec fn no_folder_below_itself(all: Seq<APIFolder>) -> bool {
    forall|chain: Seq<Seq<char>>| #[trigger] is_chain(all, chain) ==> chain.no_duplicates()
}

/// `text` is the children text of one of the first `n` ids, a folder that
/// lists children.
pub open spec fn comes_of(all: Seq<APIFolder>, ids: Seq<Seq<char>>, n: int, text: Seq<char>)
    -> bool {
    exists|j: int|
        0 <= j < n && has_children(all, #[trigger] ids[j]) && children_text(all, ids[j]) == text
}

/// `chain` is a chain of `n` folders that begins among the ids of `children`.
pub open spec fn chain_from(
    all: Seq<APIFolder>,
    children: Seq<char>,
    n: nat,
    chain: Seq<Seq<char>>,
) -> bool {
    chain.len() == n && n > 0 && is_chain(all, chain) && id_list(children, 0, 0).contains(chain[0])
}

/// What a visit leaves to be visited, beyond what was left before, are
/// children texts of folders among the ids visited.
proof fn lemma_visited_next_only(all: Seq<APIFolder>, ids: Seq<Seq<char>>, n: int, start: Walk)
    requires
        0 <= n <= ids.len(),
    ensures
        start.next.len() <= visited(all, ids, n, start).next.len(),
        forall|k: int|
            start.next.len() <= k < visited(all, ids, n, start).next.len() ==> comes_of(
                all,
                ids,
                n,
                #[trigger] visited(all, ids, n, start).next[k],
            ),
    decreases n,
{
    if n > 0 {
        lemma_visited_next_only(all, ids, n - 1, start);
        let before = visited(all, ids, n - 1, start).next;
        let after = visited(all, ids, n, start).next;
        let id = ids[n - 1];
        if has_children(all, id) {
            assert(after == before.push(children_text(all, id)));
        } else {
            assert(after == before);
        }
        assert forall|k: int| start.next.len() <= k < after.len() implies comes_of(
            all,
            ids,
            n,
            #[trigger] after[k],
        ) by {
            if k < before.len() {
                assert(after[k] == before[k]);
                assert(comes_of(all, ids, n - 1, before[k]));
                let j = choose|j: int|
                    0 <= j < n - 1 && has_children(all, #[trigger] ids[j]) && children_text(
                        all,
                        ids[j],
                    ) == before[k];
                assert(has_children(all, ids[j]) && children_text(all, ids[j]) == after[k]);
            } else {
                assert(has_children(all, ids[n - 1]) && children_text(all, ids[n - 1]) == after[k]);
            }
        }
    }
}

/// Every id of texts joined by commas is an id that one of the texts lists.
proof fn lemma_joined_lists_only(texts: Seq<Seq<char>>, n: int, id: Seq<char>)
    requires
        1 <= n <= texts.len(),
        id_list(comma_joined(texts, n), 0, 0).contains(id),
    ensures
        exists|j: int| 0 <= j < n && id_list(#[trigger] texts[j], 0, 0).contains(id),
    decreases n,
{
    reveal_strlit(",");
    if n == 1 {
        assert(id_list(texts[0], 0, 0).contains(id));
    } else {
        let head = comma_joined(texts, n - 1);
        let last = texts[n - 1];
        assert(","@ =~= seq![',']);
        assert(comma_joined(texts, n) == head + seq![','] + last);
        lemma_id_list_of_two(head, last, 0, 0);
        let first = id_list(head, 0, 0);
        let second = id_list(last, 0, 0);
        let both = id_list(comma_joined(texts, n), 0, 0);
        let at = choose|at: int| 0 <= at < both.len() && both[at] == id;
        if at < first.len() {
            assert(first[at] == id);
            lemma_joined_lists_only(texts, n - 1, id);
            let j = choose|j: int| 0 <= j < n - 1 && id_list(#[trigger] texts[j], 0, 0).contains(id);
            assert(id_list(texts[j], 0, 0).contains(id));
        } else {
            assert(second[at - first.len()] == id);
            assert(id_list(texts[n - 1], 0, 0).contains(id));
        }
    }
}

/// Where the level `n` below `children` is not empty, a chain of `n`
/// folders leads down to it from the ids of `children`.
proof fn lemma_level_has_chain(all: Seq<APIFolder>, children: Seq<char>, n: nat)
    requires
        n >= 1,
        level_children(all, children, n).len() > 0,
    ensures
        exists|chain: Seq<Seq<char>>| #[trigger] chain_from(all, children, n, chain),
    decreases n,
{
    let ids = id_list(children, 0, 0);
    let blank = Walk { folders: Seq::empty(), settings: Seq::empty(), next: Seq::empty() };
    let walk = visited(all, ids, ids.len() as int, blank);
    let below = next_children(all, children);
    lemma_visited_next_only(all, ids, ids.len() as int, blank);
    assert(level_children(all, children, n) == level_children(all, below, (n - 1) as nat));
    if n == 1 {
        assert(level_children(all, below, 0) == below);
        assert(walk.next.len() > 0);
        assert(comes_of(all, ids, ids.len() as int, walk.next[0]));
        let j = choose|j: int|
            0 <= j < ids.len() && has_children(all, #[trigger] ids[j]) && children_text(
                all,
                ids[j],
            ) == walk.next[0];
        let chain = seq![ids[j]];
        assert(chain[0] == ids[j]);
        assert(is_chain(all, chain));
        assert(chain_from(all, children, n, chain));
    } else {
        lemma_level_has_chain(all, below, (n - 1) as nat);
        let lower = choose|lower: Seq<Seq<char>>|
            #[trigger] chain_from(all, below, (n - 1) as nat, lower);
        let child = lower[0];
        assert(walk.next.len() > 0) by {
            if walk.next.len() == 0 {
                assert(below.len() == 0);
                assert(level_children(all, below, (n - 1) as nat).len() == 0);
            }
        }
        lemma_joined_lists_only(walk.next, walk.next.len() as int, child);
        let t = choose|t: int|
            0 <= t < walk.next.len() && id_list(#[trigger] walk.next[t], 0, 0).contains(child);
        assert(comes_of(all, ids, ids.len() as int, walk.next[t]));
        let j = choose|j: int|
            0 <= j < ids.len() && has_children(all, #[trigger] ids[j]) && children_text(
                all,
                ids[j],
            ) == walk.next[t];
        let parent = ids[j];
        let chain = seq![parent] + lower;
        assert(chain[0] == parent);
        assert forall|k: int| 0 <= k < chain.len() implies has_children(
            all,
            #[trigger] chain[k],
        ) by {
            if k > 0 {
                assert(chain[k] == lower[k - 1]);
            }
        }
        assert forall|k: int| 0 <= k < chain.len() - 1 implies #[trigger] linked(
            all,
            chain,
            k,
        ) by {
            assert(chain[k + 1] == lower[k]);
            if k > 0 {
                assert(chain[k] == lower[k - 1]);
                assert(linked(all, lower, k - 1));
            }
        }
        assert(chain_from(all, children, n, chain));
    }
}

/// Some folder has the id that the list gives an entry for.
proof fn lemma_entry_is_of_a_folder(all: Seq<APIFolder>, id: Seq<char>, n: int)
    requires
        0 <= n <= all.len(),
        folder_entry(all, id, n).is_some(),
    ensures
        exists|i: int| 0 <= i < n && (#[trigger] all[i]).id@ == id,
    decreases n,
{
    if n > 0 && all[n - 1].id@ != id {
        lemma_entry_is_of_a_folder(all, id, n - 1);
        let i = choose|i: int| 0 <= i < n - 1 && (#[trigger] all[i]).id@ == id;
        assert(all[i].id@ == id);
    }
}

/// A chain that comes by no id twice is no longer than the list of folders.
proof fn lemma_chain_is_short(all: Seq<APIFolder>, chain: Seq<Seq<char>>)
    requires
        is_chain(all, chain),
        chain.no_duplicates(),
    ensures
        chain.len() <= all.len(),
{
    let ids = all.map_values(|f: APIFolder| f.id@);
    assert forall|id: Seq<char>| chain.to_set().contains(id) implies ids.to_set().contains(
        id,
    ) by {
        let k = choose|k: int| 0 <= k < chain.len() && chain[k] == id;
        assert(has_children(all, chain[k]));
        lemma_entry_is_of_a_folder(all, id, all.len() as int);
        let i = choose|i: int| 0 <= i < all.len() && (#[trigger] all[i]).id@ == id;
        assert(ids[i] == id);
    }
    chain.unique_seq_to_set();
    ids.lemma_cardinality_of_set();
    vstd::seq_lib::seq_to_set_is_finite(ids);
    vstd::set_lib::lemma_len_subset(chain.to_set(), ids.to_set());
}

/// Where no folder lies below itself, the levels deeper than there are
/// folders are empty.
pub proof fn lemma_deep_levels_are_empty(all: Seq<APIFolder>, children: Seq<char>, n: nat)
    requires
        no_folder_below_itself(all),
        n > all.len(),
    ensures
        level_children(all, children, n).len() == 0,
{
    if level_children(all, children, n).len() > 0 {
        lemma_level_has_chain(all, children, n);
        let chain = choose|chain: Seq<Seq<char>>| #[trigger] chain_from(all, children, n, chain);
        assert(is_chain(all, chain));
        lemma_chain_is_short(all, chain);
    }
}

/// A round more finds no more where the level that it would visit is empty.
proof fn lemma_round_on_empty_level(
    all: Seq<APIFolder>,
    children: Seq<char>,
    rounds: nat,
    folders: Seq<Seq<char>>,
    settings: Seq<Seq<char>>,
)
    requires
        level_children(all, children, rounds).len() == 0,
    ensures
        descended(all, children, rounds + 1, folders, settings) == descended(
            all,
            children,
            rounds,
            folders,
            settings,
        ),
    decreases rounds,
{
    if rounds > 0 && children.len() > 0 {
        let ids = id_list(children, 0, 0);
        let start = Walk { folders, settings, next: Seq::empty() };
        let blank = Walk { folders: Seq::empty(), settings: Seq::empty(), next: Seq::empty() };
        let walk = visited(all, ids, ids.len() as int, start);
        let rest = comma_joined(walk.next, walk.next.len() as int);
        lemma_visited_next(all, ids, ids.len() as int, start, blank);
        assert(rest == next_children(all, children));
        assert(level_children(all, children, rounds) == level_children(
            all,
            rest,
            (rounds - 1) as nat,
        ));
        lemma_round_on_empty_level(all, rest, (rounds - 1) as nat, walk.folders, walk.settings);
    }
}

/// Where no folder lies below itself, the descent of one level more than
/// there are folders finds everything: no number of further levels finds
/// anything more.
pub proof fn lemma_descent_is_complete(
    all: Seq<APIFolder>,
    children: Seq<char>,
    more: nat,
    folders: Seq<Seq<char>>,
    settings: Seq<Seq<char>>,
)
    requires
        no_folder_below_itself(all),
    ensures
        descended(all, children, all.len() + 1 + more, folders, settings) == descended(
            all,
            children,
            all.len() + 1,
            folders,
            settings,
        ),
    decreases more,
{
    if more > 0 {
        lemma_descent_is_complete(all, children, (more - 1) as nat, folders, settings);
        let rounds = (all.len() + more) as nat;
        lemma_deep_levels_are_empty(all, children, rounds);
        lemma_round_on_empty_level(all, children, rounds, folders, settings);
    }
}

} // verus!
