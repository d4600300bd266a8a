//! Handing work to a running server, so that a project is never indexed twice.
use vstd::prelude::*;

use crate::chars;
use crate::chars::to_lowercase;
use crate::json;
use crate::numbers;
use crate::numbers::{parse_number, to_decimal};
use crate::paths;
use crate::paths::normalize_path_str;
use crate::placement;
use crate::placement::file_name;
use crate::proxy::DEFAULT_SERVE_PORT;
use crate::text;
use crate::text::{chars_of, concat, owned, str_contains, str_eq, string_of, trim};
use crate::types;

verus! {

// ---------------------------------------------------------------------------
// The address and the key
// ---------------------------------------------------------------------------

/// The variable that holds the key of the server.
pub const SERVE_API_KEY_ENV: &'static str = "CODESEARCH_SERVE_API_KEY";

/// The base address of the server on a host.
pub fn base_url(host: &str, port_setting: Option<&str>) -> (r: String)
    ensures
        r@ == "http://"@ + host@ + ":"@ + numbers::decimal(
            match port_setting {
                Some(s) => match numbers::parsed(s@, u16::MAX as nat) {
                    Some(p) => p,
                    None => DEFAULT_SERVE_PORT as nat,
                },
                None => DEFAULT_SERVE_PORT as nat,
            },
        ),
{
    let port: u64 = match port_setting {
        Some(s) => match parse_number(chars_of(s).as_slice(), u16::MAX as u64) {
            Some(p) => p,
            None => DEFAULT_SERVE_PORT as u64,
        },
        None => DEFAULT_SERVE_PORT as u64,
    };
    let p = string_of(to_decimal(port).as_slice());
    concat(concat(concat("http://", host).as_str(), ":").as_str(), p.as_str())
}

/// The key that is sent: what the variable holds, trimmed, where something is
/// left.
pub fn client_key(setting: Option<&str>) -> (r: Option<String>)
    ensures
        match setting {
            Some(s) => if text::trimmed(s@).len() > 0 {
                r matches Some(k) && k@ == text::trimmed(s@)
            } else {
                r is None
            },
            None => r is None,
        },
{
    match setting {
        Some(s) => {
            let chars = chars_of(s);
            let t = trim(chars.as_slice());
            if t.len() > 0 {
                Some(string_of(t))
            } else {
                None
            }
        },
        None => None,
    }
}

/// The character can stand in the value of a header.
pub open spec fn header_char(c: char) -> bool {
    c == '\t' || (c as u32 >= 32 && c as u32 != 127)
}

/// `reqwest::header::HeaderValue::from_str`: a text is the value of a header if
/// it has no control characters but the tabulator. Else there is an error, whose
/// text is always the same.
#[verifier::external_body]
fn check_header(value: &str) -> (r: Result<(), String>)
    ensures
        r is Ok <==> forall|i: int| 0 <= i < value@.len() ==> header_char(#[trigger] value@[i]),
        r matches Err(e) ==> e@ == "failed to parse header value"@,
{
    reqwest::header::HeaderValue::from_str(value).map(|_| ()).map_err(|e| e.to_string())
}

/// The authorization that goes with every request, if there is a key.
pub fn build_serve_client_with_key(key: Option<&str>) -> (r: Result<Option<String>, String>)
    ensures
        match key {
            None => r matches Ok(None),
            Some(k) => {
                let value = "Bearer "@ + k@;
                if forall|i: int| 0 <= i < k@.len() ==> header_char(#[trigger] k@[i]) {
                    r matches Ok(Some(h)) && h@ == value
                } else {
                    r matches Err(m) && m@
                        == "invalid CODESEARCH_SERVE_API_KEY value: failed to parse header value"@
                }
            },
        },
{
    match key {
        None => Ok(None),
        Some(k) => {
            let value = concat("Bearer ", k);
            proof {
                reveal_strlit("Bearer ");
                reveal_strlit("invalid CODESEARCH_SERVE_API_KEY value: failed to parse header value");
                reveal_strlit("invalid CODESEARCH_SERVE_API_KEY value: ");
                reveal_strlit("failed to parse header value");
                assert("invalid CODESEARCH_SERVE_API_KEY value: "@ + "failed to parse header value"@
                    =~= "invalid CODESEARCH_SERVE_API_KEY value: failed to parse header value"@);
                let v = value@;
                if forall|i: int| 0 <= i < k@.len() ==> header_char(#[trigger] k@[i]) {
                    assert forall|i: int| 0 <= i < v.len() implies header_char(#[trigger] v[i]) by {
                        if i >= 7 {
                            assert(v[i] == k@[i - 7]);
                        }
                    }
                } else {
                    let i = choose|i: int| 0 <= i < k@.len() && !header_char(#[trigger] k@[i]);
                    assert(v[i + 7] == k@[i]);
                }
            }
            match check_header(value.as_str()) {
                Ok(_) => Ok(Some(value)),
                Err(e) => Err(concat("invalid CODESEARCH_SERVE_API_KEY value: ", e.as_str())),
            }
        },
    }
}

// ---------------------------------------------------------------------------
// Answers
// ---------------------------------------------------------------------------

/// What a server answered: the number of the status, and the body.
#[derive(Debug)]
pub struct HttpReply {
    pub status: u16,
    pub body: String,
}

impl HttpReply {
    /// The status is one that a server can answer with.
    pub open spec fn wf(&self) -> bool {
        100 <= self.status < 1000
    }

    /// The request was met.
    pub open spec fn success(&self) -> bool {
        200 <= self.status < 300
    }

    /// Whether the request was met.
    pub fn is_success(&self) -> (r: bool)
        ensures
            r == self.success(),
    {
        200 <= self.status && self.status < 300
    }
}

/// How `reqwest::StatusCode` shows the status with a number.
pub uninterp spec fn status_shown(status: u16) -> Seq<char>;

/// `reqwest::StatusCode`, as it is shown: the number and the reason that goes
/// with it, such as `404 Not Found`. There is a status for every number of three
/// digits.
#[verifier::external_body]
fn status_text(status: u16) -> (r: String)
    requires
        100 <= status < 1000,
    ensures
        r@ == status_shown(status),
        text::begins_with(r@, numbers::decimal(status as nat).push(' ')),
{
    match reqwest::StatusCode::from_u16(status) {
        Ok(s) => s.to_string(),
        Err(e) => e.to_string(),
    }
}

/// What is said of an answer for which a key is missing.
pub open spec fn key_hint() -> Seq<char> {
    "serve returned 401 Unauthorized. The server requires an API key — set the CODESEARCH_SERVE_API_KEY environment variable on the client to the same value as the server."@
}

/// What to do about an answer for which a key is missing; of any other answer,
/// nothing is said.
pub fn auth_failure_hint(status: u16) -> (r: Option<String>)
    ensures
        status == 401 ==> (r matches Some(h) && h@ == key_hint()),
        status != 401 ==> r is None,
{
    if status == 401 {
        Some(
            owned(
                "serve returned 401 Unauthorized. The server requires an API key — set the CODESEARCH_SERVE_API_KEY environment variable on the client to the same value as the server.",
            ),
        )
    } else {
        None
    }
}

// ---------------------------------------------------------------------------
// The health of the server
// ---------------------------------------------------------------------------

/// What came of looking for the server.
#[derive(Clone, Copy, PartialEq, Eq, Structural, Debug)]
pub enum ServeProbe {
    /// It answered.
    Up,
    /// Nothing listens.
    Down,
    /// Something listens but does not answer in time: the server is busy.
    Unresponsive,
}

/// What became of one request for the health of the server.
#[derive(Clone, Copy, PartialEq, Eq, Structural, Debug)]
pub enum ProbeEvent {
    /// There was an answer, whatever its status.
    Answered,
    /// There was no answer in time.
    TimedOut,
    /// There was no connection.
    Refused,
}

/// How often a request that timed out is made again.
pub const SERVE_HEALTH_RETRIES: u32 = 3;

/// What is known after a number of requests that timed out, and one more:
/// `None` if another request is to be made.
pub open spec fn probe_verdict(
    timeouts: nat,
    event: ProbeEvent,
    max_retries: nat,
) -> Option<ServeProbe> {
    match event {
        ProbeEvent::Answered => Some(ServeProbe::Up),
        ProbeEvent::Refused => Some(ServeProbe::Down),
        ProbeEvent::TimedOut => if timeouts >= max_retries {
            Some(ServeProbe::Unresponsive)
        } else {
            None
        },
    }
}

/// What is known after a number of requests that timed out, and one more:
/// `None` if another request is to be made. Only a timeout is tried again.
pub fn after_probe(timeouts: u32, event: ProbeEvent, max_retries: u32) -> (r: Option<ServeProbe>)
    ensures
        r == probe_verdict(timeouts as nat, event, max_retries as nat),
{
    match event {
        ProbeEvent::Answered => Some(ServeProbe::Up),
        ProbeEvent::Refused => Some(ServeProbe::Down),
        ProbeEvent::TimedOut => {
            if timeouts >= max_retries {
                Some(ServeProbe::Unresponsive)
            } else {
                None
            }
        },
    }
}

/// A server that never answers in time is not taken for one that is not there.
pub proof fn law_slow_is_not_down(max_retries: nat, timeouts: nat)
    ensures
        probe_verdict(timeouts, ProbeEvent::TimedOut, max_retries) != Some(ServeProbe::Down),
        timeouts >= max_retries ==> probe_verdict(timeouts, ProbeEvent::TimedOut, max_retries)
            == Some(ServeProbe::Unresponsive),
{
}

/// Why work was not handed to a server.
#[derive(Debug)]
pub enum DelegateError {
    /// The server is not running.
    ServeDown,
    /// The server runs but did not answer in time.
    ServeUnresponsive,
    /// The server answered, but a later step failed.
    Failed(String),
}

impl DelegateError {
    /// The error in words.
    pub fn to_string(&self) -> (r: String)
        ensures
            r@ == (match *self {
                DelegateError::ServeDown => "serve is not running"@,
                DelegateError::ServeUnresponsive =>
                    "serve is running but did not respond in time (busy)"@,
                DelegateError::Failed(m) => m@,
            }),
    {
        match self {
            DelegateError::ServeDown => owned("serve is not running"),
            DelegateError::ServeUnresponsive => owned(
                "serve is running but did not respond in time (busy)",
            ),
            DelegateError::Failed(m) => owned(m.as_str()),
        }
    }
}

/// Why no work is handed to a server, as far as its health tells.
pub fn probe_error(probe: ServeProbe) -> (r: Option<DelegateError>)
    ensures
        match probe {
            ServeProbe::Up => r is None,
            ServeProbe::Down => r matches Some(DelegateError::ServeDown),
            ServeProbe::Unresponsive => r matches Some(DelegateError::ServeUnresponsive),
        },
{
    match probe {
        ServeProbe::Up => None,
        ServeProbe::Down => Some(DelegateError::ServeDown),
        ServeProbe::Unresponsive => Some(DelegateError::ServeUnresponsive),
    }
}

// ---------------------------------------------------------------------------
// Waiting for a server that starts
// ---------------------------------------------------------------------------

/// How often the work is offered again to a server that is busy.
pub const SERVE_WARMUP_RETRIES: u32 = 6;

/// How the work was received.
#[derive(Clone, Copy, PartialEq, Eq, Structural, Debug)]
pub enum Reception {
    Accepted,
    Down,
    Busy,
    Failed,
}

/// What is done next.
#[derive(Clone, Copy, PartialEq, Eq, Structural, Debug)]
pub enum Waiting {
    /// Return what came back.
    Return,
    /// Wait, and offer the work again.
    Retry,
}

/// What is done after the work was offered: a busy server is waited for.
pub open spec fn warmup_step(attempts: nat, reception: Reception) -> Waiting {
    if reception == Reception::Busy && attempts < SERVE_WARMUP_RETRIES {
        Waiting::Retry
    } else {
        Waiting::Return
    }
}

/// What is done after the work was offered; `attempts` tells how often it was
/// offered again before.
pub fn serve_delegate_with_warmup_wait(attempts: u32, reception: Reception) -> (r: Waiting)
    ensures
        r == warmup_step(attempts as nat, reception),
{
    if reception == Reception::Busy && attempts < SERVE_WARMUP_RETRIES {
        Waiting::Retry
    } else {
        Waiting::Return
    }
}

/// How an index is made.
#[derive(Debug)]
pub enum IndexWay {
    /// The server does it.
    Delegated,
    /// Here.
    Local,
    /// Here, although the server runs; it refused for this reason.
    LocalWithWarning(String),
    /// Not at all.
    Refused(String),
}

/// What is said where the server stays busy; the words tell what was wanted.
pub open spec fn busy_text(wanted: Seq<char>) -> Seq<char> {
    "codesearch serve is running but did not become ready within the wait budget (~2 min). Stop serve first to "@
        + wanted + " locally, or wait for it to finish warming up."@
}

/// How an index is made, after the work was offered to a server. While a server
/// is busy no index is made beside it.
pub fn index_way(error: Option<DelegateError>, wanted: &str) -> (r: IndexWay)
    ensures
        match error {
            None => r is Delegated,
            Some(DelegateError::ServeDown) => r is Local,
            Some(DelegateError::ServeUnresponsive) => r matches IndexWay::Refused(m) && m@
                == busy_text(wanted@),
            Some(DelegateError::Failed(e)) => r matches IndexWay::LocalWithWarning(m) && m@ == e@,
        },
{
    match error {
        None => IndexWay::Delegated,
        Some(DelegateError::ServeDown) => IndexWay::Local,
        Some(DelegateError::ServeUnresponsive) => IndexWay::Refused(
            concat(
                concat(
                    "codesearch serve is running but did not become ready within the wait budget (~2 min). Stop serve first to ",
                    wanted,
                ).as_str(),
                " locally, or wait for it to finish warming up.",
            ),
        ),
        Some(DelegateError::Failed(e)) => IndexWay::LocalWithWarning(e),
    }
}

/// Which reception is returned where the work is offered for as long as each
/// reception asks for it; `n` tells how many came before.
pub open spec fn returned_reception(receptions: Seq<Reception>, n: nat) -> Option<nat>
    decreases receptions.len() - n,
{
    if n >= receptions.len() {
        None
    } else {
        match warmup_step(n, receptions[n as int]) {
            Waiting::Return => Some(n),
            Waiting::Retry => returned_reception(receptions, n + 1),
        }
    }
}

/// The first `k` receptions came, and all of them were busy.
pub open spec fn busy_until(receptions: Seq<Reception>, k: nat) -> bool {
    k <= receptions.len() && forall|i: int| 0 <= i < k ==> receptions[i] == Reception::Busy
}

proof fn lemma_warmup_from(receptions: Seq<Reception>, n: nat, k: nat)
    requires
        n <= k <= SERVE_WARMUP_RETRIES,
        busy_until(receptions, k),
    ensures
        returned_reception(receptions, n) == returned_reception(receptions, k),
    decreases k - n,
{
    if n < k {
        lemma_warmup_from(receptions, n + 1, k);
    }
}

/// A server is asked seven times at most. Of the first seven receptions the
/// first that is not busy is returned; where all seven are busy, the seventh
/// is. While fewer than seven came, all of them busy, the work is offered
/// again.
pub proof fn law_warmup_is_bounded(receptions: Seq<Reception>, k: nat)
    requires
        busy_until(receptions, k),
    ensures
        k < 7 && k < receptions.len() && receptions[k as int] != Reception::Busy
            ==> returned_reception(receptions, 0) == Some(k),
        k >= 7 ==> returned_reception(receptions, 0) == Some(6nat),
        k < 7 && k == receptions.len() ==> returned_reception(receptions, 0) is None,
{
    if k < 7 {
        lemma_warmup_from(receptions, 0, k);
    } else {
        lemma_warmup_from(receptions, 0, 6);
    }
}

// ---------------------------------------------------------------------------
// Names of repositories
// ---------------------------------------------------------------------------

/// The form in which paths of repositories are compared.
pub open spec fn comparable(path: Seq<char>) -> Seq<char> {
    chars::in_lower_case(paths::normal(path))
}

/// The form in which paths of repositories are compared.
pub fn path_key(path: &str) -> (r: String)
    ensures
        r@ == comparable(path@),
{
    to_lowercase(normalize_path_str(path).as_str())
}

/// The place of the first repository with a key.
pub open spec fn place_of_key(keys: Seq<Seq<char>>, key: Seq<char>) -> Option<int>
    decreases keys.len(),
{
    if keys.len() == 0 {
        None
    } else {
        match place_of_key(keys.drop_last(), key) {
            Some(i) => Some(i),
            None => if keys.last() == key {
                Some(keys.len() - 1)
            } else {
                None
            },
        }
    }
}

/// The place of the first repository with a key.
pub fn find_key(keys: &Vec<String>, key: &str) -> (r: Option<usize>)
    ensures
        match r {
            Some(i) => place_of_key(text::views(keys@), key@) == Some(i as int) && i < keys.len(),
            None => place_of_key(text::views(keys@), key@) is None,
        },
{
    let ghost ks = text::views(keys@);
    let mut found: Option<usize> = None;
    let mut i: usize = 0;
    while i < keys.len()
        invariant
            i <= keys.len(),
            ks == text::views(keys@),
            match found {
                Some(f) => place_of_key(ks.take(i as int), key@) == Some(f as int) && f < i,
                None => place_of_key(ks.take(i as int), key@) is None,
            },
        decreases keys.len() - i,
    {
        proof {
            assert(ks.take(i + 1).drop_last() =~= ks.take(i as int));
            assert(ks.take(i + 1).last() == keys@[i as int]@);
        }
        if found.is_none() && str_eq(keys[i].as_str(), key) {
            found = Some(i);
        }
        i += 1;
    }
    proof {
        assert(ks.take(ks.len() as int) =~= ks);
    }
    found
}

/// The name that a repository gets from its directory.
pub open spec fn directory_alias(path: Seq<char>) -> Seq<char> {
    match placement::file_name_of(path) {
        Some(n) => n,
        None => "unknown"@,
    }
}

/// The name that a repository gets from its directory.
pub fn alias_of_directory(path: &str) -> (r: String)
    ensures
        r@ == directory_alias(path@),
{
    match file_name(path) {
        Some(n) => n,
        None => owned("unknown"),
    }
}

/// The name under which the server knows a project: the one that is recorded,
/// or that of its directory. `keys` are the paths of the recorded repositories,
/// in the form in which they are compared.
pub fn alias_for_reindex(
    aliases: &Vec<String>,
    keys: &Vec<String>,
    key: &str,
    path: &str,
) -> (r: String)
    requires
        aliases.len() == keys.len(),
    ensures
        r@ == (match place_of_key(text::views(keys@), key@) {
            Some(i) => aliases@[i]@,
            None => directory_alias(path@),
        }),
{
    match find_key(keys, key) {
        Some(i) => owned(aliases[i].as_str()),
        None => alias_of_directory(path),
    }
}

/// The name of a project that is to be removed: it must be recorded.
pub fn alias_for_removal(
    aliases: &Vec<String>,
    keys: &Vec<String>,
    key: &str,
    path: &str,
) -> (r: Result<String, String>)
    requires
        aliases.len() == keys.len(),
    ensures
        match place_of_key(text::views(keys@), key@) {
            Some(i) => r matches Ok(a) && a@ == aliases@[i]@,
            None => r matches Err(m) && m@ == "path '"@ + path@ + "' not found in repos.json"@,
        },
{
    match find_key(keys, key) {
        Some(i) => Ok(owned(aliases[i].as_str())),
        None => Err(concat(concat("path '", path).as_str(), "' not found in repos.json")),
    }
}

// ---------------------------------------------------------------------------
// Requests
// ---------------------------------------------------------------------------

/// The address at which a repository is indexed anew.
pub open spec fn reindex_address(base: Seq<char>, alias: Seq<char>, force: bool) -> Seq<char> {
    if force {
        base + "/repos/"@ + alias + "/reindex?force=true"@
    } else {
        base + "/repos/"@ + alias + "/reindex"@
    }
}

/// The address at which a repository is indexed anew.
pub fn reindex_url(base: &str, alias: &str, force: bool) -> (r: String)
    ensures
        r@ == reindex_address(base@, alias@, force),
{
    let a = concat(concat(base, "/repos/").as_str(), alias);
    if force {
        concat(a.as_str(), "/reindex?force=true")
    } else {
        concat(a.as_str(), "/reindex")
    }
}

/// The address of a repository.
pub fn repo_url(base: &str, alias: &str) -> (r: String)
    ensures
        r@ == base@ + "/repos/"@ + alias@,
{
    concat(concat(base, "/repos/").as_str(), alias)
}

/// Which request a reindexing has come to.
#[derive(Clone, Copy, PartialEq, Eq, Structural, Debug)]
pub enum ReindexStage {
    /// Index the repository anew.
    Reindex,
    /// Register it first, since the server does not know it.
    Register,
    /// Register it again, since its database is gone.
    Recreate,
    /// Index it from scratch, since it is registered after all.
    Force,
}

/// What follows a request.
#[derive(Debug)]
pub enum ReindexAction {
    /// The server does the work.
    Accepted,
    /// Make this request next.
    Next(ReindexStage),
    /// Give up.
    Fail(DelegateError),
}

/// An answer in words: what was done, the status, the name, and the body.
pub open spec fn reply_text(what: Seq<char>, reply: HttpReply, alias: Seq<char>) -> Seq<char> {
    what + " returned "@ + status_shown(reply.status) + " for alias '"@ + alias + "': "@
        + reply.body@
}

/// An answer in words: what was done, the status, the name, and the body.
fn reply_message(what: &str, reply: &HttpReply, alias: &str) -> (r: String)
    requires
        reply.wf(),
    ensures
        r@ == reply_text(what@, *reply, alias@),
{
    let a = concat(what, " returned ");
    let b = concat(a.as_str(), status_text(reply.status).as_str());
    let c = concat(concat(b.as_str(), " for alias '").as_str(), alias);
    concat(concat(c.as_str(), "': ").as_str(), reply.body.as_str())
}

/// What a request is called in messages.
pub open spec fn stage_name(stage: ReindexStage) -> Seq<char> {
    match stage {
        ReindexStage::Reindex => "serve"@,
        ReindexStage::Register => "auto-register"@,
        ReindexStage::Recreate => "auto-register"@,
        ReindexStage::Force => "force reindex"@,
    }
}

/// What is said of a request that did not get through.
pub open spec fn stage_failure(stage: ReindexStage) -> Seq<char> {
    match stage {
        ReindexStage::Reindex => "reindex POST failed: "@,
        ReindexStage::Register => "auto-register POST /repos failed: "@,
        ReindexStage::Recreate => "auto-register POST /repos failed: "@,
        ReindexStage::Force => "force reindex POST failed: "@,
    }
}

/// The request that an answer leads to, if it leads to one.
pub open spec fn next_stage(stage: ReindexStage, reply: HttpReply) -> Option<ReindexStage> {
    match stage {
        ReindexStage::Reindex => if reply.status == 404 {
            Some(ReindexStage::Register)
        } else if reply.status == 500 && text::has_text(reply.body@, "Database not found"@) {
            Some(ReindexStage::Recreate)
        } else {
            None
        },
        ReindexStage::Recreate => if reply.status == 409 {
            Some(ReindexStage::Force)
        } else {
            None
        },
        _ => None,
    }
}

/// What follows a request of a reindexing; the request got through with an
/// answer, or failed with a message.
pub fn after_reindex(
    stage: ReindexStage,
    outcome: Result<HttpReply, String>,
    alias: &str,
) -> (r: ReindexAction)
    requires
        outcome matches Ok(reply) ==> reply.wf(),
    ensures
        match outcome {
            Err(e) => r matches ReindexAction::Fail(DelegateError::Failed(m)) && m@
                == stage_failure(stage) + e@,
            Ok(reply) => if reply.success() {
                r is Accepted
            } else if next_stage(stage, reply) is Some {
                r matches ReindexAction::Next(s) && Some(s) == next_stage(stage, reply)
            } else if reply.status == 401 {
                r matches ReindexAction::Fail(DelegateError::Failed(m)) && m@ == key_hint()
            } else {
                r matches ReindexAction::Fail(DelegateError::Failed(m)) && m@ == reply_text(
                    stage_name(stage),
                    reply,
                    alias@,
                )
            },
        },
{
    let reply = match outcome {
        Ok(reply) => reply,
        Err(e) => {
            let what = match stage {
                ReindexStage::Reindex => "reindex POST failed: ",
                ReindexStage::Register => "auto-register POST /repos failed: ",
                ReindexStage::Recreate => "auto-register POST /repos failed: ",
                ReindexStage::Force => "force reindex POST failed: ",
            };
            return ReindexAction::Fail(DelegateError::Failed(concat(what, e.as_str())));
        },
    };
    if reply.is_success() {
        return ReindexAction::Accepted;
    }
    match stage {
        ReindexStage::Reindex => {
            if reply.status == 404 {
                return ReindexAction::Next(ReindexStage::Register);
            }
            if reply.status == 500 && str_contains(reply.body.as_str(), "Database not found") {
                return ReindexAction::Next(ReindexStage::Recreate);
            }
        },
        ReindexStage::Recreate => {
            if reply.status == 409 {
                return ReindexAction::Next(ReindexStage::Force);
            }
        },
        _ => {},
    }
    match auth_failure_hint(reply.status) {
        Some(h) => ReindexAction::Fail(DelegateError::Failed(h)),
        None => {
            let what = match stage {
                ReindexStage::Reindex => "serve",
                ReindexStage::Register => "auto-register",
                ReindexStage::Recreate => "auto-register",
                ReindexStage::Force => "force reindex",
            };
            ReindexAction::Fail(DelegateError::Failed(reply_message(what, &reply, alias)))
        },
    }
}

/// How many requests may still follow.
pub open spec fn requests_left(stage: ReindexStage) -> nat {
    match stage {
        ReindexStage::Reindex => 2,
        ReindexStage::Register => 0,
        ReindexStage::Recreate => 1,
        ReindexStage::Force => 0,
    }
}

/// A reindexing makes at most three requests.
pub proof fn law_reindex_ends(stage: ReindexStage, reply: HttpReply)
    ensures
        requests_left(stage) <= 2,
        next_stage(stage, reply) matches Some(s) ==> requests_left(s) < requests_left(stage),
{
}

/// The name that the server gave a repository, from the body of its answer.
pub fn answered_alias(body: &str) -> (r: Option<String>)
    ensures
        types::opt_text(r) == (match json::json_document(body@) {
            Some(d) => json::member_text(d, "alias"@),
            None => None,
        }),
{
    match json::parse(body) {
        Some(d) => json::text_at(&d, "alias"),
        None => None,
    }
}

/// What came of adding a repository through the server: its name there, which
/// is that of its directory where the server names none.
pub fn after_add(
    outcome: Result<HttpReply, String>,
    answered_alias: Option<String>,
    path: &str,
) -> (r: Result<String, DelegateError>)
    requires
        outcome matches Ok(reply) ==> reply.wf(),
    ensures
        match outcome {
            Err(e) => r matches Err(DelegateError::Failed(m)) && m@ == "add POST failed: "@ + e@,
            Ok(reply) => if reply.success() {
                r matches Ok(a) && a@ == (match answered_alias {
                    Some(x) => x@,
                    None => directory_alias(path@),
                })
            } else if reply.status == 401 {
                r matches Err(DelegateError::Failed(m)) && m@ == key_hint()
            } else {
                r matches Err(DelegateError::Failed(m)) && m@ == "serve returned "@
                    + status_shown(reply.status) + ": "@ + reply.body@
            },
        },
{
    match outcome {
        Err(e) => Err(DelegateError::Failed(concat("add POST failed: ", e.as_str()))),
        Ok(reply) => {
            if reply.is_success() {
                match answered_alias {
                    Some(a) => Ok(a),
                    None => Ok(alias_of_directory(path)),
                }
            } else {
                match auth_failure_hint(reply.status) {
                    Some(h) => Err(DelegateError::Failed(h)),
                    None => {
                        let a = concat("serve returned ", status_text(reply.status).as_str());
                        Err(
                            DelegateError::Failed(
                                concat(concat(a.as_str(), ": ").as_str(), reply.body.as_str()),
                            ),
                        )
                    },
                }
            }
        },
    }
}

/// What came of adding a repository through the server. Its name there is the
/// `alias` in the body of the answer, and that of its directory where the body
/// names none.
pub fn added_alias(outcome: Result<HttpReply, String>, path: &str) -> (r: Result<
    String,
    DelegateError,
>)
    requires
        outcome matches Ok(reply) ==> reply.wf(),
    ensures
        match outcome {
            Err(e) => r matches Err(DelegateError::Failed(m)) && m@ == "add POST failed: "@ + e@,
            Ok(reply) => if reply.success() {
                r matches Ok(a) && a@ == (match json::json_document(reply.body@) {
                    Some(d) => match json::member_text(d, "alias"@) {
                        Some(x) => x,
                        None => directory_alias(path@),
                    },
                    None => directory_alias(path@),
                })
            } else if reply.status == 401 {
                r matches Err(DelegateError::Failed(m)) && m@ == key_hint()
            } else {
                r matches Err(DelegateError::Failed(m)) && m@ == "serve returned "@
                    + status_shown(reply.status) + ": "@ + reply.body@
            },
        },
{
    let alias = match &outcome {
        Ok(reply) => answered_alias(reply.body.as_str()),
        Err(_) => None,
    };
    after_add(outcome, alias, path)
}

/// Whether a removal can go through the server: it must be healthy.
pub fn health_for_removal(outcome: Result<HttpReply, String>, base: &str) -> (r: Result<(), String>)
    requires
        outcome matches Ok(reply) ==> reply.wf(),
    ensures
        match outcome {
            Err(e) => r matches Err(m) && m@ == "serve not reachable at "@ + base@ + " ("@ + e@
                + "). Is 'codesearch serve' running?"@,
            Ok(reply) => if reply.success() {
                r is Ok
            } else if reply.status == 401 {
                r matches Err(m) && m@ == key_hint()
            } else {
                r matches Err(m) && m@ == "serve health check returned "@ + status_shown(
                    reply.status,
                )
            },
        },
{
    match outcome {
        Err(e) => {
            let a = concat(concat("serve not reachable at ", base).as_str(), " (");
            Err(concat(concat(a.as_str(), e.as_str()).as_str(), "). Is 'codesearch serve' running?"))
        },
        Ok(reply) => {
            if reply.is_success() {
                Ok(())
            } else {
                match auth_failure_hint(reply.status) {
                    Some(h) => Err(h),
                    None => Err(
                        concat("serve health check returned ", status_text(reply.status).as_str()),
                    ),
                }
            }
        },
    }
}

/// What came of removing a repository through the server.
pub fn after_removal(outcome: Result<HttpReply, String>, alias: &str) -> (r: Result<(), String>)
    requires
        outcome matches Ok(reply) ==> reply.wf(),
    ensures
        match outcome {
            Err(e) => r matches Err(m) && m@ == "delete failed: "@ + e@,
            Ok(reply) => if reply.success() {
                r is Ok
            } else if reply.status == 401 {
                r matches Err(m) && m@ == key_hint()
            } else {
                r matches Err(m) && m@ == reply_text("serve"@, reply, alias@)
            },
        },
{
    match outcome {
        Err(e) => Err(concat("delete failed: ", e.as_str())),
        Ok(reply) => {
            if reply.is_success() {
                Ok(())
            } else {
                match auth_failure_hint(reply.status) {
                    Some(h) => Err(h),
                    None => Err(reply_message("serve", &reply, alias)),
                }
            }
        },
    }
}

/// A reply is a success exactly from 200 up to 299.
pub proof fn law_success(reply: HttpReply)
    ensures
        reply.success() <==> reply.status / 100 == 2,
{
}

/// A server that answers is up, one that refuses is down, and one that times out
/// is asked again until the retries are used up.
pub proof fn law_probe(timeouts: nat, max_retries: nat)
    ensures
        SERVE_HEALTH_RETRIES == 3,
        probe_verdict(timeouts, ProbeEvent::Answered, max_retries) == Some(ServeProbe::Up),
        probe_verdict(timeouts, ProbeEvent::Refused, max_retries) == Some(ServeProbe::Down),
        timeouts < max_retries ==> probe_verdict(timeouts, ProbeEvent::TimedOut, max_retries) is None,
{
}

/// Only a busy server is asked again, and that six times.
pub proof fn law_only_busy_is_retried(attempts: nat, reception: Reception)
    ensures
        warmup_step(attempts, reception) == Waiting::Retry <==> reception == Reception::Busy
            && attempts < 6,
{
}

/// A header may hold a tab and every character that is no control character.
pub proof fn law_header_characters(c: char)
    ensures
        c == '\t' ==> header_char(c),
        c == '\n' || c == '\r' || c as u32 == 127 || c as u32 == 0 ==> !header_char(c),
        ' ' <= c <= '~' ==> header_char(c),
        c as u32 > 127 ==> header_char(c),
        header_char(c) <==> c as u32 == 9 || (32 <= c as u32 && c as u32 != 127),
{
}

/// A repository is found by the first key that equals its own.
pub proof fn law_first_key(keys: Seq<Seq<char>>, key: Seq<char>, i: int)
    requires
        0 <= i <= keys.len(),
        forall|j: int| 0 <= j < i ==> #[trigger] keys[j] != key,
    ensures
        i < keys.len() && keys[i] == key ==> place_of_key(keys, key) == Some(i),
        i == keys.len() ==> place_of_key(keys, key) is None,
    decreases keys.len(),
{
    if keys.len() > 0 {
        let front = keys.drop_last();
        assert forall|j: int| 0 <= j < i && j < front.len() implies #[trigger] front[j] != key by {
            assert(front[j] == keys[j]);
        }
        if i < front.len() {
            law_first_key(front, key, i);
            assert(front[i] == keys[i]);
        } else {
            law_first_key(front, key, front.len() as int);
            if i == keys.len() {
                assert(keys[keys.len() - 1] != key);
            }
        }
    }
}

/// Two paths are compared in lower case and with slashes.
pub proof fn law_compared_paths(a: Seq<char>, b: Seq<char>)
    requires
        paths::normal(a) == paths::normal(b),
    ensures
        comparable(a) == comparable(b),
        comparable(a) == chars::in_lower_case(paths::normal(b)),
{
}

/// A directory without a name of its own is called unknown.
pub proof fn law_alias_of_a_directory(path: Seq<char>)
    ensures
        placement::file_name_of(path) is Some ==> directory_alias(path)
            == placement::file_name_of(path)->0,
        placement::file_name_of(path) is None ==> directory_alias(path) == "unknown"@,
{
}

/// The address of a reindex is that of the repository, and one that is forced says
/// so.
pub proof fn law_reindex_address(base: Seq<char>, alias: Seq<char>)
    ensures
        reindex_address(base, alias, false) == base + "/repos/"@ + alias + "/reindex"@,
        reindex_address(base, alias, true) == reindex_address(base, alias, false) + "?force=true"@,
{
    reveal_strlit("/reindex");
    reveal_strlit("/reindex?force=true");
    reveal_strlit("?force=true");
    assert("/reindex?force=true"@ =~= "/reindex"@ + "?force=true"@);
    assert(reindex_address(base, alias, true) =~= base + "/repos/"@ + alias + ("/reindex"@
        + "?force=true"@));
}

/// A repository that the server does not know is registered, one whose database
/// is gone is created anew, and one that is there after all is reindexed by
/// force. No other reply leads on.
pub proof fn law_stages_of_a_reindex(reply: HttpReply)
    ensures
        next_stage(ReindexStage::Reindex, reply) == Some(ReindexStage::Register) <==> reply.status
            == 404,
        next_stage(ReindexStage::Reindex, reply) == Some(ReindexStage::Recreate) <==> reply.status
            == 500 && text::has_text(reply.body@, "Database not found"@),
        next_stage(ReindexStage::Reindex, reply) != Some(ReindexStage::Force),
        next_stage(ReindexStage::Reindex, reply) != Some(ReindexStage::Reindex),
        next_stage(ReindexStage::Recreate, reply) == (if reply.status == 409 {
            Some(ReindexStage::Force)
        } else {
            None
        }),
        next_stage(ReindexStage::Register, reply) is None,
        next_stage(ReindexStage::Force, reply) is None,
        reply.success() ==> next_stage(ReindexStage::Reindex, reply) is None,
{
}

/// What a failure of a reindex says.
pub proof fn law_words_of_a_reindex(what: Seq<char>, reply: HttpReply, alias: Seq<char>)
    ensures
        stage_name(ReindexStage::Reindex) == "serve"@,
        stage_name(ReindexStage::Register) == "auto-register"@,
        stage_name(ReindexStage::Recreate) == "auto-register"@,
        stage_name(ReindexStage::Force) == "force reindex"@,
        stage_failure(ReindexStage::Reindex) == "reindex POST failed: "@,
        stage_failure(ReindexStage::Register) == "auto-register POST /repos failed: "@,
        stage_failure(ReindexStage::Recreate) == "auto-register POST /repos failed: "@,
        stage_failure(ReindexStage::Force) == "force reindex POST failed: "@,
        text::begins_with(reply_text(what, reply, alias), what),
        text::finishes_with(reply_text(what, reply, alias), reply.body@),
        text::has_text(reply_text(what, reply, alias), status_shown(reply.status)),
        text::has_text(reply_text(what, reply, alias), alias),
        text::has_text(busy_text(what), what),
{
    let s = reply_text(what, reply, alias);
    let shown = status_shown(reply.status);
    text::law_ends_of_text(s, what);
    text::law_ends_of_text(s, reply.body@);
    assert(s.take(what.len() as int) =~= what);
    assert(s.skip(s.len() - reply.body@.len()) =~= reply.body@);
    let b1 = what + " returned "@;
    let a1 = " for alias '"@ + alias + "': "@ + reply.body@;
    assert(s =~= b1 + shown + a1);
    text::law_text_is_found(b1, shown, a1);
    let b2 = b1 + shown + " for alias '"@;
    let a2 = "': "@ + reply.body@;
    assert(s =~= b2 + alias + a2);
    text::law_text_is_found(b2, alias, a2);
    text::law_text_is_found(
        "codesearch serve is running but did not become ready within the wait budget (~2 min). Stop serve first to "@,
        what,
        " locally, or wait for it to finish warming up."@,
    );
}

/// An index is made by the server where it takes the work, locally where it is
/// down or fails, and not at all while it is busy.
pub proof fn law_way_of_indexing(error: Option<DelegateError>, wanted: &str, r: IndexWay)
    requires
        call_ensures(index_way, (error, wanted), r),
    ensures
        r is Delegated <==> error is None,
        r is Local <==> error is Some && error->0 is ServeDown,
        r is Refused <==> error is Some && error->0 is ServeUnresponsive,
        r is LocalWithWarning <==> error is Some && error->0 is Failed,
        r is LocalWithWarning ==> r->LocalWithWarning_0@ == error->0->0@,
        r is Refused ==> text::has_text(r->Refused_0@, wanted@),
{
    text::law_text_is_found(
        "codesearch serve is running but did not become ready within the wait budget (~2 min). Stop serve first to "@,
        wanted@,
        " locally, or wait for it to finish warming up."@,
    );
}

/// A key is what is set, without white space around it, and none where nothing is
/// left. It goes into a header only where it has no control characters.
pub proof fn law_key_of_a_client(
    setting: Option<&str>,
    r: Option<String>,
    key: Option<&str>,
    h: Result<Option<String>, String>,
    i: int,
)
    requires
        call_ensures(client_key, (setting,), r),
        call_ensures(build_serve_client_with_key, (key,), h),
    ensures
        setting is None ==> r is None,
        setting is Some && text::trimmed(setting->0@).len() == 0 ==> r is None,
        setting is Some && text::trimmed(setting->0@).len() > 0 ==> r is Some && r->0@
            == text::trimmed(setting->0@),
        key is None ==> h is Ok && h->Ok_0 is None,
        key is Some && 0 <= i < key->0@.len() && (key->0@[i] == '\n' || key->0@[i] == '\r') ==> h is Err,
        key is Some && h is Ok ==> h->Ok_0 is Some && h->Ok_0->0@ == "Bearer "@ + key->0@,
        key is Some && (forall|k: int| 0 <= k < key->0@.len() ==> ' ' <= #[trigger] key->0@[k] <= '~')
            ==> h is Ok,
{
    if key is Some && 0 <= i < key->0@.len() && (key->0@[i] == '\n' || key->0@[i] == '\r') {
        law_header_characters(key->0@[i]);
        assert(!header_char(key->0@[i]));
    }
    if key is Some && (forall|k: int| 0 <= k < key->0@.len() ==> ' ' <= #[trigger] key->0@[k] <= '~') {
        assert forall|k: int| 0 <= k < key->0@.len() implies header_char(#[trigger] key->0@[k]) by {
            assert(' ' <= key->0@[k] <= '~');
            law_header_characters(key->0@[k]);
        }
    }
}

/// A reindex is accepted with a success, goes on where the reply leads on, and
/// else fails; without the key it says what to set.
pub proof fn law_replies_to_a_reindex(
    stage: ReindexStage,
    outcome: Result<HttpReply, String>,
    alias: &str,
    r: ReindexAction,
)
    requires
        outcome matches Ok(reply) ==> reply.wf(),
        call_ensures(after_reindex, (stage, outcome, alias), r),
    ensures
        r is Accepted <==> outcome is Ok && 200 <= outcome->Ok_0.status < 300,
        outcome is Err ==> r is Fail,
        outcome is Ok && outcome->Ok_0.status == 401 ==> r is Fail,
        outcome is Ok && outcome->Ok_0.status == 404 && stage == ReindexStage::Reindex ==> r
            == ReindexAction::Next(ReindexStage::Register),
        outcome is Ok && outcome->Ok_0.status == 404 && stage != ReindexStage::Reindex ==> r is Fail,
        outcome is Ok && outcome->Ok_0.status == 409 && stage == ReindexStage::Recreate ==> r
            == ReindexAction::Next(ReindexStage::Force),
{
}

/// A removal needs a server that is well, and is done with a success.
pub proof fn law_replies_to_a_removal(
    health: Result<HttpReply, String>,
    base: &str,
    h: Result<(), String>,
    outcome: Result<HttpReply, String>,
    alias: &str,
    r: Result<(), String>,
    aliases: &Vec<String>,
    keys: &Vec<String>,
    key: &str,
    path: &str,
    a: Result<String, String>,
    i: int,
)
    requires
        health matches Ok(reply) ==> reply.wf(),
        outcome matches Ok(reply) ==> reply.wf(),
        aliases@.len() == keys@.len(),
        call_ensures(health_for_removal, (health, base), h),
        call_ensures(after_removal, (outcome, alias), r),
        call_ensures(alias_for_removal, (aliases, keys, key, path), a),
        0 <= i <= keys@.len(),
        forall|j: int| 0 <= j < i ==> (#[trigger] keys@[j])@ != key@,
    ensures
        h is Ok <==> health is Ok && 200 <= health->Ok_0.status < 300,
        r is Ok <==> outcome is Ok && 200 <= outcome->Ok_0.status < 300,
        i < keys@.len() && keys@[i]@ == key@ ==> a is Ok && a->Ok_0@ == aliases@[i]@,
        i == keys@.len() ==> a is Err,
{
    let views = text::views(keys@);
    assert forall|j: int| 0 <= j < i implies #[trigger] views[j] != key@ by {
        assert(keys@[j]@ != key@);
    }
    law_first_key(views, key@, i);
}

/// Only a refused key is hinted at, and what a probe says of a server is its
/// error.
pub proof fn law_hints(
    status: u16,
    hint: Option<String>,
    probe: ServeProbe,
    error: Option<DelegateError>,
)
    requires
        call_ensures(auth_failure_hint, (status,), hint),
        call_ensures(probe_error, (probe,), error),
    ensures
        hint is Some <==> status == 401,
        error is None <==> probe == ServeProbe::Up,
        error is Some ==> (error->0 is ServeDown <==> probe == ServeProbe::Down),
        error is Some ==> (error->0 is ServeUnresponsive <==> probe == ServeProbe::Unresponsive),
{
}

/// An addition is done with a success, under the alias that the server answers or
/// that of the directory.
pub proof fn law_replies_to_an_addition(
    outcome: Result<HttpReply, String>,
    answered: Option<String>,
    path: &str,
    r: Result<String, DelegateError>,
)
    requires
        outcome matches Ok(reply) ==> reply.wf(),
        call_ensures(after_add, (outcome, answered, path), r),
    ensures
        r is Ok <==> outcome is Ok && 200 <= outcome->Ok_0.status < 300,
        r is Ok && answered is Some ==> r->Ok_0@ == answered->0@,
        r is Ok && answered is None ==> r->Ok_0@ == directory_alias(path@),
        r is Err ==> r->Err_0 is Failed,
{
}

/// What is said where the key of a server is missing or wrong.
pub proof fn law_key_hint()
    ensures
        key_hint()
            == "serve returned 401 Unauthorized. The server requires an API key — set the CODESEARCH_SERVE_API_KEY environment variable on the client to the same value as the server."@,
        SERVE_API_KEY_ENV@ == "CODESEARCH_SERVE_API_KEY"@,
{
}

} // verus!
