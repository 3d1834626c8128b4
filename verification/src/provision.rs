//! Text the startup provisioning sequence sends to the administrative
//! API: resource paths, the DDL of the `kv_store` table, and the test
//! that a schema already declares it.

use vstd::prelude::*;
use crate::text::{contains_seq, str_contains};

verus! {

/// The project resource path.
pub fn project_path(project: &str) -> (r: String)
    ensures
        r@ == "projects/"@ + project@,
{
    let mut r = String::from_str("projects/");
    r.append(project);
    r
}

/// The instance resource path under a project path.
pub fn instance_path(project_path: &str, instance: &str) -> (r: String)
    ensures
        r@ == project_path@ + "/instances/"@ + instance@,
{
    let mut r = String::from_str(project_path);
    r.append("/instances/");
    r.append(instance);
    r
}

/// The database resource path under an instance path.
pub fn database_path(instance_path: &str, database: &str) -> (r: String)
    ensures
        r@ == instance_path@ + "/databases/"@ + database@,
{
    let mut r = String::from_str(instance_path);
    r.append("/databases/");
    r.append(database);
    r
}

/// The instance configuration a new instance is created with: the
/// emulator's own when the emulator is in use, a regional one else.
pub fn instance_config_path(project_path: &str, emulator: bool) -> (r: String)
    ensures
        r@ == project_path@ + if emulator {
            "/instanceConfigs/emulator-config"@
        } else {
            "/instanceConfigs/regional-us-central1"@
        },
{
    let mut r = String::from_str(project_path);
    if emulator {
        r.append("/instanceConfigs/emulator-config");
    } else {
        r.append("/instanceConfigs/regional-us-central1");
    }
    r
}

/// The display name a new instance is created with.
pub fn instance_display_name(instance: &str) -> (r: String)
    ensures
        r@ == instance@ + " instance"@,
{
    let mut r = String::from_str(instance);
    r.append(" instance");
    r
}

/// The statement that creates the database.
pub fn create_database_statement(database_id: &str) -> (r: String)
    ensures
        r@ == "CREATE DATABASE `"@ + database_id@ + "`"@,
{
    let mut r = String::from_str("CREATE DATABASE `");
    r.append(database_id);
    r.append("`");
    r
}

/// The last `'/'`-separated segment of a resource path (the whole path
/// when it has no slash).
pub open spec fn spec_last_segment(s: Seq<char>) -> Seq<char>
    decreases s.len(),
{
    if s.len() == 0 {
        s
    } else if s.last() == '/' {
        Seq::empty()
    } else {
        spec_last_segment(s.drop_last()).push(s.last())
    }
}

proof fn lemma_last_segment_suffix(s: Seq<char>, cut: int)
    requires
        0 <= cut <= s.len(),
        forall|j: int| cut <= j < s.len() ==> s[j] != '/',
        cut > 0 ==> s[cut - 1] == '/',
    ensures
        spec_last_segment(s) =~= s.skip(cut),
    decreases s.len(),
{
    if s.len() == 0 {
    } else if cut == s.len() {
        if cut > 0 {
            assert(s.last() == '/');
        }
    } else {
        assert(s.last() != '/');
        lemma_last_segment_suffix(s.drop_last(), cut);
        assert(spec_last_segment(s) =~= s.drop_last().skip(cut).push(s.last()));
        assert(s.drop_last().skip(cut).push(s.last()) =~= s.skip(cut));
    }
}

/// The identifier a database path names: its last path segment.
pub fn database_id_of_path(path: &str) -> (r: String)
    ensures
        r@ == spec_last_segment(path@),
{
    let n: usize = path.unicode_len();
    let mut cut: usize = n;
    while cut > 0 && path.get_char(cut - 1) != '/'
        invariant
            cut <= n,
            n == path@.len(),
            forall|j: int| cut <= j < n ==> path@[j] != '/',
        decreases cut,
    {
        cut -= 1;
    }
    proof {
        assert(cut > 0 ==> path@[cut - 1] == '/');
    }
    proof {
        lemma_last_segment_suffix(path@, cut as int);
    }
    let mut r = String::new();
    let mut i: usize = cut;
    while i < n
        invariant
            cut <= i <= n,
            n == path@.len(),
            r@ =~= path@.subrange(cut as int, i as int),
        decreases n - i,
    {
        // build the suffix character by character through the canonical
        // one-character substring
        let piece = path.substring_char(i, i + 1);
        r.append(piece);
        proof {
            assert(path@.subrange(cut as int, i + 1) =~= path@.subrange(cut as int, i as int)
                + path@.subrange(i as int, i + 1));
        }
        i += 1;
    }
    proof {
        assert(path@.subrange(cut as int, n as int) =~= path@.skip(cut as int));
    }
    r
}

/// The schema of the `kv_store` table.
pub fn kv_table_ddl() -> (r: &'static str)
    ensures
        contains_seq(r@, "CREATE TABLE kv_store"@),
{
    let ddl = "CREATE TABLE kv_store (\n    id STRING(36) NOT NULL,\n    data JSON NOT NULL,\n    created_at TIMESTAMP NOT NULL OPTIONS (allow_commit_timestamp=true),\n    updated_at TIMESTAMP NOT NULL OPTIONS (allow_commit_timestamp=true),\n) PRIMARY KEY (id)";
    proof {
        reveal_strlit(
            "CREATE TABLE kv_store (\n    id STRING(36) NOT NULL,\n    data JSON NOT NULL,\n    created_at TIMESTAMP NOT NULL OPTIONS (allow_commit_timestamp=true),\n    updated_at TIMESTAMP NOT NULL OPTIONS (allow_commit_timestamp=true),\n) PRIMARY KEY (id)",
        );
        reveal_strlit("CREATE TABLE kv_store");
        assert(ddl@.subrange(0, 0 + "CREATE TABLE kv_store"@.len() as int)
            =~= "CREATE TABLE kv_store"@);
    }
    ddl
}

/// Does any statement of the schema declare the `kv_store` table,
/// with or without backquotes around its name?
pub fn table_exists_in_ddl(statements: &Vec<String>) -> (r: bool)
    ensures
        r == exists|i: int|
            0 <= i < statements@.len() && (contains_seq(
                (#[trigger] statements@[i])@,
                "CREATE TABLE kv_store"@,
            ) || contains_seq(statements@[i]@, "CREATE TABLE `kv_store`"@)),
{
    let n = statements.len();
    let mut i: usize = 0;
    while i < n
        invariant
            i <= n,
            n == statements@.len(),
            forall|j: int|
                0 <= j < i ==> !contains_seq((#[trigger] statements@[j])@, "CREATE TABLE kv_store"@)
                    && !contains_seq(statements@[j]@, "CREATE TABLE `kv_store`"@),
        decreases n - i,
    {
        let s = &statements[i];
        if str_contains(s.as_str(), "CREATE TABLE kv_store") || str_contains(
            s.as_str(),
            "CREATE TABLE `kv_store`",
        ) {
            return true;
        }
        i += 1;
    }
    false
}

} // verus!
