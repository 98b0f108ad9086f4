//! Uploading the scheduler's per-second metrics to Weights & Biases.
//!
//! A run is made in two steps: the account of the key is asked for, and a run is
//! created under it. Then the metrics lines are streamed to the run in one
//! request, which also ends it. The requests themselves are the caller's; what
//! they hold, and what the answers mean, is here.

use crate::numerals::{decimal, push_decimal};
use crate::text::{has_prefix, has_suffix, texts};
use vstd::prelude::*;
use vstd::string::StringExecFns;

verus! {

// ───────────────────────────── answers ─────────────────────────────

/// What `serde_json` finds under three nested keys of a JSON text: `None` where
/// the text is not JSON, and then the string under the keys, where there is one.
pub uninterp spec fn json_string(body: Seq<char>, a: Seq<char>, b: Seq<char>, c: Seq<char>) -> Option<
    Option<Seq<char>>,
>;

/// What `serde_json` finds under a key of a JSON text: `None` where the text is
/// not JSON, and then the length of the list under the key, where there is one.
pub uninterp spec fn json_list_len(body: Seq<char>, key: Seq<char>) -> Option<Option<usize>>;

/// The text of an optional optional string.
pub open spec fn found_text(r: Option<Option<String>>) -> Option<Option<Seq<char>>> {
    match r {
        Some(Some(s)) => Some(Some(s@)),
        Some(None) => Some(None),
        None => None,
    }
}

/// `serde_json::from_str` to a `serde_json::Value`, indexed by three keys, and
/// `Value::as_str` of what is there. The result depends on the arguments alone.
#[verifier::external_body]
fn json_string_at(body: &str, a: &str, b: &str, c: &str) -> (r: Option<Option<String>>)
    ensures
        found_text(r) == json_string(body@, a@, b@, c@),
{
    match serde_json::from_str::<serde_json::Value>(body) {
        Ok(v) => Some(v[a][b][c].as_str().map(|s| s.to_string())),
        Err(_) => None,
    }
}

/// `serde_json::from_str` to a `serde_json::Value`, indexed by a key, and the
/// length of `Value::as_array` of what is there. The result depends on the
/// arguments alone.
#[verifier::external_body]
fn json_list_len_at(body: &str, key: &str) -> (r: Option<Option<usize>>)
    ensures
        r == json_list_len(body@, key@),
{
    match serde_json::from_str::<serde_json::Value>(body) {
        Ok(v) => Some(v[key].as_array().map(|l| l.len())),
        Err(_) => None,
    }
}

/// Why a run could not be made.
#[derive(Debug, Clone, Copy, PartialEq, Eq, Structural)]
pub enum WandbError {
    /// The answer is not JSON.
    NotJson,
    /// The answer names no account.
    NoEntity,
    /// The run was refused with this many errors.
    Refused { errors: usize },
}

/// The account that an answer names.
pub open spec fn entity_found(found: Option<Option<Seq<char>>>) -> Result<Seq<char>, WandbError> {
    match found {
        Some(Some(e)) => Ok(e),
        Some(None) => Err(WandbError::NoEntity),
        None => Err(WandbError::NotJson),
    }
}

/// Whether an answer says that the run was created.
pub open spec fn creation_found(found: Option<Option<usize>>) -> Result<(), WandbError> {
    match found {
        Some(Some(n)) => if n > 0 {
            Err(WandbError::Refused { errors: n })
        } else {
            Ok(())
        },
        Some(None) => Ok(()),
        None => Err(WandbError::NotJson),
    }
}

/// Takes the account out of what was found in an answer.
pub fn entity_from(found: Option<Option<String>>) -> (r: Result<String, WandbError>)
    ensures
        match r {
            Ok(s) => entity_found(found_text(found)) == Ok::<Seq<char>, WandbError>(s@),
            Err(e) => entity_found(found_text(found)) == Err::<Seq<char>, WandbError>(e),
        },
{
    match found {
        Some(Some(e)) => Ok(e),
        Some(None) => Err(WandbError::NoEntity),
        None => Err(WandbError::NotJson),
    }
}

/// Decides from the number of errors found in an answer.
pub fn creation_from(found: Option<Option<usize>>) -> (r: Result<(), WandbError>)
    ensures
        r == creation_found(found),
{
    match found {
        Some(Some(n)) => if n > 0 {
            Err(WandbError::Refused { errors: n })
        } else {
            Ok(())
        },
        Some(None) => Ok(()),
        None => Err(WandbError::NotJson),
    }
}

/// Reads the account of the key out of the answer to [`viewer_query`].
pub fn read_entity(body: &str) -> (r: Result<String, WandbError>)
    ensures
        match r {
            Ok(s) => entity_found(json_string(body@, "data"@, "viewer"@, "entity"@)) == Ok::<
                Seq<char>,
                WandbError,
            >(s@),
            Err(e) => entity_found(json_string(body@, "data"@, "viewer"@, "entity"@)) == Err::<
                Seq<char>,
                WandbError,
            >(e),
        },
{
    entity_from(json_string_at(body, "data", "viewer", "entity"))
}

/// Reads out of the answer to [`create_query`] whether the run was created.
pub fn read_creation(body: &str) -> (r: Result<(), WandbError>)
    ensures
        r == creation_found(json_list_len(body@, "errors"@)),
{
    creation_from(json_list_len_at(body, "errors"))
}

// ───────────────────────────── requests ─────────────────────────────

/// The address of the query interface.
pub fn graphql_url() -> (r: String)
    ensures
        r@ == "https://api.wandb.ai/graphql"@,
{
    String::from_str("https://api.wandb.ai/graphql")
}

/// The query for the account of a key.
pub fn viewer_query() -> (r: String)
    ensures
        r@ == "{viewer{entity}}"@,
{
    String::from_str("{viewer{entity}}")
}

/// The query that creates a run; its variables are `name`, `project` and `entity`.
pub fn create_query() -> (r: String)
    ensures
        r@
            == "mutation UpsertBucket($name:String,$project:String,$entity:String) { upsertBucket(input:{name:$name,modelName:$project,entityName:$entity}) { bucket { id name } } }"@,
{
    String::from_str(
        "mutation UpsertBucket($name:String,$project:String,$entity:String) { upsertBucket(input:{name:$name,modelName:$project,entityName:$entity}) { bucket { id name } } }",
    )
}

/// The authorization header of a query.
pub fn bearer(api_key: &str) -> (r: String)
    ensures
        r@ == "Bearer "@ + api_key@,
{
    let mut s = String::from_str("Bearer ");
    s.append(api_key);
    s
}

/// The name of a run that is made `millis` milliseconds after the Unix epoch.
pub open spec fn run_name_text(scheduler: Seq<char>, millis: nat) -> Seq<char> {
    "tquic-"@ + scheduler + "-"@ + decimal(millis)
}

/// Runs of one scheduler that are made at different times have different names.
pub proof fn run_names_differ(scheduler: Seq<char>, a: nat, b: nat)
    requires
        a != b,
    ensures
        run_name_text(scheduler, a) != run_name_text(scheduler, b),
{
    crate::numerals::lemma_decimal(a);
    crate::numerals::lemma_decimal(b);
    let head = "tquic-"@ + scheduler + "-"@;
    let x = run_name_text(scheduler, a);
    let y = run_name_text(scheduler, b);
    if x == y {
        assert(x.subrange(head.len() as int, x.len() as int) =~= decimal(a));
        assert(y.subrange(head.len() as int, y.len() as int) =~= decimal(b));
    }
}

/// Makes the name of a run.
pub fn run_name(scheduler: &str, millis: u64) -> (r: String)
    ensures
        r@ == run_name_text(scheduler@, millis as nat),
{
    let mut s = String::from_str("tquic-");
    s.append(scheduler);
    s.append("-");
    push_decimal(&mut s, millis);
    s
}

/// A run that was created.
pub struct WandbLogger {
    pub api_key: String,
    pub entity: String,
    pub project: String,
    pub run_name: String,
    /// The public address of the run.
    pub run_url: String,
}

/// A request that streams metrics lines to a run.
pub struct Upload {
    pub url: String,
    /// The line of the history file at which the lines begin.
    pub offset: u64,
    pub lines: Vec<String>,
    /// The run is finished.
    pub complete: bool,
    /// With which code it is.
    pub exitcode: u64,
}

/// The metrics lines with their line ends.
pub open spec fn history(lines: Seq<Seq<char>>) -> Seq<Seq<char>> {
    lines.map_values(|l: Seq<char>| l + "\n"@)
}

/// The public address of a run.
pub open spec fn run_address(entity: Seq<char>, project: Seq<char>, name: Seq<char>) -> Seq<char> {
    "https://wandb.ai/"@ + entity + "/"@ + project + "/runs/"@ + name
}

/// The address to which the metrics of a run are streamed.
pub open spec fn stream_address(entity: Seq<char>, project: Seq<char>, name: Seq<char>) -> Seq<
    char,
> {
    "https://api.wandb.ai/files/"@ + entity + "/"@ + project + "/"@ + name + "/file_stream"@
}

/// An address leads from the account over the project to the run: the account comes
/// right behind the host, the run last, the project between them.
pub proof fn addresses_lead_to_the_run(entity: Seq<char>, project: Seq<char>, name: Seq<char>)
    ensures
        has_prefix(run_address(entity, project, name), "https://wandb.ai/"@ + entity + "/"@),
        has_suffix(
            run_address(entity, project, name),
            "/"@ + (project + ("/runs/"@ + name)),
        ),
        run_address(entity, project, name).len() == "https://wandb.ai/"@.len() + entity.len() + (
        "/"@ + (project + ("/runs/"@ + name))).len(),
        has_prefix(
            stream_address(entity, project, name),
            "https://api.wandb.ai/files/"@ + entity + "/"@,
        ),
        has_suffix(
            stream_address(entity, project, name),
            "/"@ + (project + ("/"@ + (name + "/file_stream"@))),
        ),
        stream_address(entity, project, name).len() == "https://api.wandb.ai/files/"@.len()
            + entity.len() + ("/"@ + (project + ("/"@ + (name + "/file_stream"@)))).len(),
{
    let a = run_address(entity, project, name);
    let head = "https://wandb.ai/"@ + entity + "/"@;
    let tail = "/"@ + (project + ("/runs/"@ + name));
    assert(a =~= "https://wandb.ai/"@ + entity + tail);
    assert(a.subrange(0, head.len() as int) =~= head);
    assert(a.subrange(a.len() - tail.len(), a.len() as int) =~= tail);
    let b = stream_address(entity, project, name);
    let front = "https://api.wandb.ai/files/"@ + entity + "/"@;
    let back = "/"@ + (project + ("/"@ + (name + "/file_stream"@)));
    assert(b =~= "https://api.wandb.ai/files/"@ + entity + back);
    assert(b.subrange(0, front.len() as int) =~= front);
    assert(b.subrange(b.len() - back.len(), b.len() as int) =~= back);
}

/// The name of a run tells its scheduler and its time: the scheduler comes right behind
/// the first hyphen, the time last.
pub proof fn run_name_tells_scheduler_and_time(scheduler: Seq<char>, millis: nat)
    ensures
        has_prefix(run_name_text(scheduler, millis), "tquic-"@ + scheduler + "-"@),
        has_suffix(run_name_text(scheduler, millis), "-"@ + decimal(millis)),
        run_name_text(scheduler, millis).len() == "tquic-"@.len() + scheduler.len() + ("-"@
            + decimal(millis)).len(),
{
    let a = run_name_text(scheduler, millis);
    let head = "tquic-"@ + scheduler + "-"@;
    let tail = "-"@ + decimal(millis);
    assert(a =~= "tquic-"@ + scheduler + tail);
    assert(a.subrange(0, head.len() as int) =~= head);
    assert(a.subrange(a.len() - tail.len(), a.len() as int) =~= tail);
}

/// Every metrics line is uploaded as it is, with a line end, in order.
pub proof fn history_keeps_every_line(lines: Seq<Seq<char>>, i: int)
    requires
        0 <= i < lines.len(),
    ensures
        history(lines).len() == lines.len(),
        history(lines)[i] == lines[i].push('\n'),
{
    reveal_strlit("\n");
    assert(lines[i] + "\n"@ =~= lines[i].push('\n'));
}

/// An account is found exactly where an answer names one; an answer that is not JSON
/// and one that names none are told apart. A run is created exactly where the answer is
/// JSON and lists no error.
pub proof fn answers_are_told_apart(
    found: Option<Option<Seq<char>>>,
    entity: Seq<char>,
    errors: Option<Option<usize>>,
    n: usize,
)
    ensures
        entity_found(found) == Ok::<Seq<char>, WandbError>(entity) <==> found == Some(
            Some(entity),
        ),
        entity_found(found) == Err::<Seq<char>, WandbError>(WandbError::NotJson) <==> found is None,
        entity_found(found) == Err::<Seq<char>, WandbError>(WandbError::NoEntity) <==> found
            == Some(None::<Seq<char>>),
        creation_found(errors) is Ok <==> errors == Some(None::<usize>) || errors == Some(
            Some(0usize),
        ),
        creation_found(errors) == Err::<(), WandbError>(WandbError::NotJson) <==> errors is None,
        creation_found(errors) == Err::<(), WandbError>(WandbError::Refused { errors: n }) <==> n
            > 0 && errors == Some(Some(n)),
{
}

impl WandbLogger {
    /// A run with this name under the account.
    pub fn new(api_key: String, entity: String, project: String, run_name: String) -> (r: Self)
        ensures
            r.api_key@ == api_key@,
            r.entity@ == entity@,
            r.project@ == project@,
            r.run_name@ == run_name@,
            r.run_url@ == run_address(entity@, project@, run_name@),
    {
        let mut run_url = String::from_str("https://wandb.ai/");
        run_url.append(entity.as_str());
        run_url.append("/");
        run_url.append(project.as_str());
        run_url.append("/runs/");
        run_url.append(run_name.as_str());
        WandbLogger { api_key, entity, project, run_name, run_url }
    }

    /// The request that uploads the metrics lines and finishes the run; none where
    /// there are no lines.
    pub fn upload_history(&self, lines: &Vec<String>) -> (r: Option<Upload>)
        ensures
            match r {
                Some(u) => {
                    &&& lines@.len() > 0
                    &&& u.url@ == stream_address(self.entity@, self.project@, self.run_name@)
                    &&& u.offset == 0
                    &&& texts(u.lines@) == history(texts(lines@))
                    &&& u.complete
                    &&& u.exitcode == 0
                },
                None => lines@.len() == 0,
            },
    {
        if lines.len() == 0 {
            return None;
        }
        let mut url = String::from_str("https://api.wandb.ai/files/");
        url.append(self.entity.as_str());
        url.append("/");
        url.append(self.project.as_str());
        url.append("/");
        url.append(self.run_name.as_str());
        url.append("/file_stream");
        let mut out: Vec<String> = Vec::new();
        let ghost all = history(texts(lines@));
        let mut i: usize = 0;
        while i < lines.len()
            invariant
                i <= lines@.len(),
                all == history(texts(lines@)),
                texts(out@) =~= all.subrange(0, i as int),
            decreases lines@.len() - i,
        {
            let mut l = lines[i].clone();
            l.append("\n");
            let ghost before = texts(out@);
            assert(l@ == all[i as int]);
            out.push(l);
            assert(texts(out@) =~= before.push(l@));
            i += 1;
        }
        assert(all.subrange(0, i as int) =~= all);
        Some(Upload { url, offset: 0, lines: out, complete: true, exitcode: 0 })
    }
}

/// Whether an upload succeeded, given the status of the answer, where there was one.
pub fn upload_succeeded(status: Option<u16>) -> (r: bool)
    ensures
        r == (status matches Some(s) && 200 <= s < 300),
{
    match status {
        Some(s) => 200 <= s && s < 300,
        None => false,
    }
}

} // verus!
