//! Instances: endpoints that the control plane manages, with an id, a
//! lifecycle and a persisted form.

use crate::conf::ConfView;
use crate::conf::EndpointConf;
use crate::stats::InstanceStats;
use crate::stats::StatsView;
use crate::text::chars_of;
use crate::text::is_space;
use crate::text::is_whitespace;
use crate::text::lower_char;
use tokio::task::AbortHandle;
use vstd::prelude::*;
use vstd::string::StringExecFns;

verus! {

#[verifier::external_type_specification]
#[verifier::external_body]
pub struct ExAbortHandle(AbortHandle);

/// `AbortHandle::abort`: asks the runtime to cancel the task. Nothing is
/// claimed of what comes of it.
#[verifier::external_body]
pub(crate) fn abort_task(handle: &AbortHandle) {
    handle.abort();
}

/// `Utc::now().to_rfc3339()`: the present moment as an RFC 3339 string.
/// Nothing is claimed of it.
#[verifier::external_body]
fn now_rfc3339() -> String {
    chrono::Utc::now().to_rfc3339()
}

/// `Uuid::new_v4().to_string()`: a random UUID in text. Nothing is claimed
/// of it.
#[verifier::external_body]
pub(crate) fn random_id() -> String {
    uuid::Uuid::new_v4().to_string()
}

/// The present moment, as the stamp that lifecycle operations put on an
/// instance.
pub fn timestamp() -> String {
    now_rfc3339()
}

/// Whether an instance's endpoint runs.
#[derive(Debug)]
pub enum InstanceStatus {
    Running,
    Stopped,
    Failed(String),
}

/// A status as plain values.
pub enum StatusView {
    Running,
    Stopped,
    Failed(Seq<char>),
}

impl View for InstanceStatus {
    type V = StatusView;

    open spec fn view(&self) -> StatusView {
        match self {
            InstanceStatus::Running => StatusView::Running,
            InstanceStatus::Stopped => StatusView::Stopped,
            InstanceStatus::Failed(why) => StatusView::Failed(why@),
        }
    }
}

impl Clone for InstanceStatus {
    fn clone(&self) -> (r: Self)
        ensures
            r@ == self@,
    {
        match self {
            InstanceStatus::Running => InstanceStatus::Running,
            InstanceStatus::Stopped => InstanceStatus::Stopped,
            InstanceStatus::Failed(why) => InstanceStatus::Failed(why.clone()),
        }
    }
}

/// An endpoint under management.
#[derive(Debug)]
pub struct Instance {
    pub id: String,
    pub config: EndpointConf,
    pub status: InstanceStatus,
    pub auto_start: bool,
}

/// An instance as plain values.
pub struct InstanceView {
    pub id: Seq<char>,
    pub config: ConfView,
    pub status: StatusView,
    pub auto_start: bool,
}

impl View for Instance {
    type V = InstanceView;

    open spec fn view(&self) -> InstanceView {
        InstanceView {
            id: self.id@,
            config: self.config@,
            status: self.status@,
            auto_start: self.auto_start,
        }
    }
}

impl Clone for Instance {
    fn clone(&self) -> (r: Self)
        ensures
            r@ == self@,
    {
        Instance {
            id: self.id.clone(),
            config: self.config.clone(),
            status: self.status.clone(),
            auto_start: self.auto_start,
        }
    }
}

/// Whether an instance starts with the process where nothing says
/// otherwise.
pub fn default_auto_start() -> (r: bool)
    ensures
        r,
{
    true
}

/// The body of a request to switch an instance's auto-start.
#[derive(Debug, Clone, Copy)]
pub struct InstanceAutoStartUpdate {
    pub auto_start: bool,
}

/// The body of a request to create an instance: a configuration, and the id
/// under one of two names.
#[derive(Debug)]
pub struct CreateInstanceRequest {
    pub id: Option<String>,
    pub external_id: Option<String>,
    pub config: EndpointConf,
}

/// An instance as it stands in the configuration file.
#[derive(Debug)]
pub struct PersistedInstance {
    pub id: String,
    pub config: EndpointConf,
    /// `Running`, `Stopped` or `Failed(...)`.
    pub status: String,
    pub auto_start: bool,
    pub created_at: String,
    pub updated_at: Option<String>,
}

/// An instance with what belongs to its run.
#[derive(Debug)]
pub struct InstanceData {
    pub instance: Instance,
    pub tcp_abort: Option<AbortHandle>,
    pub udp_abort: Option<AbortHandle>,
    /// Raised by every lifecycle operation: who started something under an
    /// older generation finds that things have moved on.
    pub generation: u64,
    pub created_at: String,
    pub updated_at: Option<String>,
    pub stats: InstanceStats,
}

/// An instance with what belongs to its run, as plain values.
pub struct DataView {
    pub instance: InstanceView,
    /// The handle on the TCP task, if one is held.
    pub tcp: Option<AbortHandle>,
    /// The handle on the UDP task, if one is held.
    pub udp: Option<AbortHandle>,
    pub generation: u64,
    pub created_at: Seq<char>,
    pub updated_at: Option<Seq<char>>,
    pub stats: StatsView,
}

impl View for InstanceData {
    type V = DataView;

    open spec fn view(&self) -> DataView {
        DataView {
            instance: self.instance@,
            tcp: self.tcp_abort,
            udp: self.udp_abort,
            generation: self.generation,
            created_at: self.created_at@,
            updated_at: match self.updated_at {
                Some(t) => Some(t@),
                None => None,
            },
            stats: self.stats@,
        }
    }
}

impl DataView {
    /// At rest a handle is held only while the instance runs.
    pub open spec fn settled(self) -> bool {
        (self.tcp is Some || self.udp is Some) ==> self.instance.status is Running
    }
}

/// The most characters of an id.
pub const MAX_ID_CHARS: usize = 256;

/// What is wrong with an id, if anything: it is empty, it has more than 256
/// characters, it holds whitespace, or it holds a path separator.
pub open spec fn id_fault(id: Seq<char>) -> Option<Seq<char>> {
    if id.len() == 0 {
        Some("id must not be empty"@)
    } else if id.len() > MAX_ID_CHARS {
        Some("id too long (max 256)"@)
    } else if exists|i: int| 0 <= i < id.len() && is_space(#[trigger] id[i]) {
        Some("id must not contain whitespace"@)
    } else if exists|i: int| 0 <= i < id.len() && (#[trigger] id[i] == '/' || id[i] == '\\') {
        Some("id must not contain path separators"@)
    } else {
        None
    }
}

/// Checks an id.
pub fn validate_instance_id(id: &str) -> (r: Result<(), String>)
    ensures
        match id_fault(id@) {
            Some(why) => r matches Err(e) && e@ == why,
            None => r is Ok,
        },
{
    let chars = chars_of(id);
    if chars.len() == 0 {
        return Err(String::from_str("id must not be empty"));
    }
    if chars.len() > MAX_ID_CHARS {
        return Err(String::from_str("id too long (max 256)"));
    }
    let mut i: usize = 0;
    while i < chars.len()
        invariant
            i <= chars@.len(),
            chars@ == id@,
            0 < chars@.len() <= MAX_ID_CHARS,
            forall|j: int| 0 <= j < i ==> !is_space(#[trigger] chars@[j]),
        decreases chars@.len() - i,
    {
        if is_whitespace(chars[i]) {
            proof {
                assert(is_space(id@[i as int]));
            }
            return Err(String::from_str("id must not contain whitespace"));
        }
        i += 1;
    }
    let mut k: usize = 0;
    while k < chars.len()
        invariant
            k <= chars@.len(),
            chars@ == id@,
            0 < chars@.len() <= MAX_ID_CHARS,
            forall|j: int| 0 <= j < chars@.len() ==> !is_space(#[trigger] chars@[j]),
            forall|j: int| 0 <= j < k ==> !(#[trigger] chars@[j] == '/' || chars@[j] == '\\'),
        decreases chars@.len() - k,
    {
        if chars[k] == '/' || chars[k] == '\\' {
            proof {
                assert(id@[k as int] == '/' || id@[k as int] == '\\');
            }
            return Err(String::from_str("id must not contain path separators"));
        }
        k += 1;
    }
    Ok(())
}

/// The status as it is written to the configuration file.
pub open spec fn status_written(status: StatusView) -> Seq<char> {
    match status {
        StatusView::Running => "Running"@,
        StatusView::Stopped => "Stopped"@,
        StatusView::Failed(why) => "Failed("@ + why + ")"@,
    }
}

/// The status that a string of the configuration file restores: a failure
/// with its reason is kept, for diagnostics; everything else is a stopped
/// instance, which auto-start may start.
pub open spec fn status_restored(s: Seq<char>) -> StatusView {
    if s.len() >= 7 && s.take(7) == "Failed("@ {
        if s.len() >= 8 && s.last() == ')' {
            StatusView::Failed(s.subrange(7, s.len() - 1))
        } else {
            StatusView::Failed("Unknown error"@)
        }
    } else {
        StatusView::Stopped
    }
}

/// The status as it is written to the configuration file.
pub fn persisted_status(status: &InstanceStatus) -> (r: String)
    ensures
        r@ == status_written(status@),
{
    match status {
        InstanceStatus::Running => String::from_str("Running"),
        InstanceStatus::Stopped => String::from_str("Stopped"),
        InstanceStatus::Failed(why) => {
            let mut out = String::from_str("Failed(");
            out.append(why.as_str());
            out.append(")");
            out
        },
    }
}

/// The status that a string of the configuration file restores.
pub fn restored_status(s: &str) -> (r: InstanceStatus)
    ensures
        r@ == status_restored(s@),
{
    let chars = chars_of(s);
    let n: usize = chars.len();
    proof {
        reveal_strlit("Failed(");
    }
    if n >= 7 && chars[0] == 'F' && chars[1] == 'a' && chars[2] == 'i' && chars[3] == 'l'
        && chars[4] == 'e' && chars[5] == 'd' && chars[6] == '(' {
        proof {
            assert(s@.take(7) =~= "Failed("@);
        }
        if n >= 8 && chars[n - 1] == ')' {
            InstanceStatus::Failed(String::from_str(s.substring_char(7, n - 1)))
        } else {
            InstanceStatus::Failed(String::from_str("Unknown error"))
        }
    } else {
        proof {
            if n >= 7 {
                assert(s@.take(7)[0] == s@[0]);
                assert(s@.take(7)[1] == s@[1]);
                assert(s@.take(7)[2] == s@[2]);
                assert(s@.take(7)[3] == s@[3]);
                assert(s@.take(7)[4] == s@[4]);
                assert(s@.take(7)[5] == s@[5]);
                assert(s@.take(7)[6] == s@[6]);
            }
        }
        InstanceStatus::Stopped
    }
}

/// A failure survives being written and restored, with its reason; a
/// running or stopped instance is restored as stopped.
pub proof fn lemma_status_round_trip(status: StatusView)
    ensures
        status_restored(status_written(status)) == match status {
            StatusView::Failed(why) => StatusView::Failed(why),
            _ => StatusView::Stopped,
        },
{
    reveal_strlit("Failed(");
    reveal_strlit("Running");
    reveal_strlit("Stopped");
    reveal_strlit(")");
    match status {
        StatusView::Failed(why) => {
            let s = status_written(status);
            assert(s.take(7) =~= "Failed("@);
            assert(s.subrange(7, s.len() - 1) =~= why);
        },
        StatusView::Running => {
            assert("Running"@.take(7)[0] == 'R');
        },
        StatusView::Stopped => {
            assert("Stopped"@.take(7)[0] == 'S');
        },
    }
}

/// The format of a persisted file.
#[derive(Debug, Clone, Copy, PartialEq, Eq, Structural)]
pub enum PersistFormat {
    Json,
    Toml,
}

/// A path up to the end of the name of its file: without the separators
/// and the components `.` that may follow the name, which `std::path` passes
/// over too.
pub open spec fn up_to_name(path: Seq<char>) -> Seq<char>
    decreases path.len(),
{
    if path.len() == 0 {
        path
    } else if path.last() == '/' {
        up_to_name(path.drop_last())
    } else if path.last() == '.' && path.len() >= 2 && path[path.len() - 2] == '/' {
        up_to_name(path.drop_last())
    } else {
        path
    }
}

/// The extension of the last component of a path that ends with that
/// component: what follows the component's last dot, where that dot is not
/// its first character.
pub open spec fn extension_of(path: Seq<char>) -> Option<Seq<char>>
    decreases path.len(),
{
    if path.len() == 0 || path.last() == '/' {
        None
    } else if path.last() == '.' {
        if path.len() >= 2 && path[path.len() - 2] != '/' {
            Some(Seq::empty())
        } else {
            None
        }
    } else {
        match extension_of(path.drop_last()) {
            Some(ext) => Some(ext.push(path.last())),
            None => None,
        }
    }
}

/// Whether a text is `toml`, the case of its letters aside.
pub open spec fn is_toml(ext: Seq<char>) -> bool {
    ext.len() == 4 && lower_char(ext[0]) == 't' && lower_char(ext[1]) == 'o' && lower_char(ext[2])
        == 'm' && lower_char(ext[3]) == 'l'
}

/// The format that a path asks for: TOML where the extension of the file
/// it names is `toml`, JSON otherwise.
pub open spec fn format_of(path: Seq<char>) -> PersistFormat {
    match extension_of(up_to_name(path)) {
        Some(ext) if is_toml(ext) => PersistFormat::Toml,
        _ => PersistFormat::Json,
    }
}

fn lower(c: char) -> (r: char)
    ensures
        r == lower_char(c),
{
    if 'A' <= c && c <= 'Z' {
        ((c as u8) + 32) as char
    } else {
        c
    }
}

impl PersistFormat {
    /// The format that a path asks for, by the extension of the file it
    /// names.
    pub fn from_path(path: &str) -> (r: PersistFormat)
        ensures
            r == format_of(path@),
    {
        let chars = chars_of(path);
        // the name ends before the separators and the `.` that follow it
        let mut n: usize = chars.len();
        proof {
            assert(path@.take(n as int) =~= path@);
        }
        while n > 0 && (chars[n - 1] == '/' || (chars[n - 1] == '.' && n >= 2 && chars[n - 2]
            == '/'))
            invariant
                n <= chars@.len(),
                chars@ == path@,
                up_to_name(path@) == up_to_name(path@.take(n as int)),
            decreases n,
        {
            proof {
                assert(path@.take(n as int).drop_last() =~= path@.take(n - 1));
            }
            n -= 1;
        }
        let ghost named = path@.take(n as int);
        proof {
            assert(up_to_name(named) == named);
        }
        // the extension starts after the last dot, if one comes before a
        // separator when reading backwards
        let mut i: usize = n;
        proof {
            assert(named.take(n as int) =~= named);
        }
        while i > 0 && chars[i - 1] != '.' && chars[i - 1] != '/'
            invariant
                i <= n <= chars@.len(),
                chars@ == path@,
                named == path@.take(n as int),
                extension_of(named) == match extension_of(named.take(i as int)) {
                    Some(ext) => Some(ext + named.subrange(i as int, n as int)),
                    None => None,
                },
            decreases i,
        {
            proof {
                let head = named.take(i as int);
                assert(head.drop_last() =~= named.take(i - 1));
                match extension_of(named.take(i - 1)) {
                    Some(ext) => {
                        assert(ext.push(head.last()) + named.subrange(i as int, n as int) =~= ext
                            + named.subrange(i - 1, n as int));
                    },
                    None => {},
                }
            }
            i -= 1;
        }
        let ghost head = named.take(i as int);
        if i == 0 || chars[i - 1] == '/' {
            return PersistFormat::Json;
        }
        // a dot stands at `i - 1`
        if i < 2 || chars[i - 2] == '/' {
            return PersistFormat::Json;
        }
        proof {
            assert(head.last() == '.');
            assert(head[head.len() - 2] == path@[i - 2]);
            assert(Seq::<char>::empty() + named.subrange(i as int, n as int) =~= named.subrange(
                i as int,
                n as int,
            ));
        }
        if n - i == 4 && lower(chars[i]) == 't' && lower(chars[i + 1]) == 'o' && lower(chars[i + 2])
            == 'm' && lower(chars[i + 3]) == 'l' {
            PersistFormat::Toml
        } else {
            PersistFormat::Json
        }
    }
}

/// Where the instances are persisted.
#[derive(Debug)]
pub enum PersistenceMode {
    /// In the user's configuration file, beside its other sections.
    Hybrid { config_file: String, format: PersistFormat },
    /// In a file of their own.
    SelfManaged { storage_path: String, format: PersistFormat },
}

/// Where the instances are persisted, as plain values.
pub enum ModeView {
    Hybrid { config_file: Seq<char>, format: PersistFormat },
    SelfManaged { storage_path: Seq<char>, format: PersistFormat },
}

impl View for PersistenceMode {
    type V = ModeView;

    open spec fn view(&self) -> ModeView {
        match self {
            PersistenceMode::Hybrid { config_file, format } => ModeView::Hybrid {
                config_file: config_file@,
                format: *format,
            },
            PersistenceMode::SelfManaged { storage_path, format } => ModeView::SelfManaged {
                storage_path: storage_path@,
                format: *format,
            },
        }
    }
}

impl PersistenceMode {
    /// Where the instances are persisted: in the configuration file where
    /// one is named; else in a file of their own, at the path that the
    /// environment names or at the default path. The format follows the
    /// file's extension.
    pub fn select(config_file: Option<String>, store: Option<String>) -> (r: Self)
        ensures
            r@ == match config_file {
                Some(file) => ModeView::Hybrid { config_file: file@, format: format_of(file@) },
                None => match store {
                    Some(path) => ModeView::SelfManaged {
                        storage_path: path@,
                        format: format_of(path@),
                    },
                    None => ModeView::SelfManaged {
                        storage_path: "./instances/realm.json"@,
                        format: format_of("./instances/realm.json"@),
                    },
                },
            },
    {
        match config_file {
            Some(file) => {
                let format = PersistFormat::from_path(file.as_str());
                PersistenceMode::Hybrid { config_file: file, format }
            },
            None => {
                let storage_path: String = match store {
                    Some(path) => path,
                    None => String::from_str("./instances/realm.json"),
                };
                let format = PersistFormat::from_path(storage_path.as_str());
                PersistenceMode::SelfManaged { storage_path, format }
            },
        }
    }

    /// The path of the persisted file.
    pub fn path(&self) -> (r: &String)
        ensures
            r@ == match self@ {
                ModeView::Hybrid { config_file, .. } => config_file,
                ModeView::SelfManaged { storage_path, .. } => storage_path,
            },
    {
        match self {
            PersistenceMode::Hybrid { config_file, .. } => config_file,
            PersistenceMode::SelfManaged { storage_path, .. } => storage_path,
        }
    }

    /// The format of the persisted file.
    pub fn format(&self) -> (r: PersistFormat)
        ensures
            r == match self@ {
                ModeView::Hybrid { format, .. } => format,
                ModeView::SelfManaged { format, .. } => format,
            },
    {
        match self {
            PersistenceMode::Hybrid { format, .. } => *format,
            PersistenceMode::SelfManaged { format, .. } => *format,
        }
    }
}

/// The path of the file that is written first and then renamed over the
/// persisted file, so that the persisted file is never seen half written.
pub fn temp_path(path: &str) -> (r: String)
    ensures
        r@ == path@ + ".tmp"@,
{
    let mut out = String::from_str(path);
    out.append(".tmp");
    out
}

} // verus!
