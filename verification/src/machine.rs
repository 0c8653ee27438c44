//! What a run knows of the machine: registry keys and values, files,
//! directories, shortcuts and firewall rules, as a snapshot of plain values.
//! The planner reads the snapshot; taking it is the client's work.

use vstd::prelude::*;

use crate::error::{Error, ErrorView};
use crate::lists;
use crate::packed;
use crate::paths;
use crate::plan::target;
use crate::text;

verus! {

/// The registry hive a scope writes.
#[derive(Debug, Clone, Copy, PartialEq, Eq, Structural)]
pub enum Hive {
    CurrentUser,
    LocalMachine,
}

impl Hive {
    pub open spec fn name(self) -> Seq<char> {
        match self {
            Hive::CurrentUser => "HKCU"@,
            Hive::LocalMachine => "HKLM"@,
        }
    }

    /// `HKCU` or `HKLM`.
    pub fn as_str(self) -> (r: &'static str)
        ensures
            r@ == self.name(),
    {
        match self {
            Hive::CurrentUser => "HKCU",
            Hive::LocalMachine => "HKLM",
        }
    }
}

/// A registry key: a hive and the path below it.
#[derive(Debug, PartialEq, Eq)]
pub struct KeyPath {
    pub hive: Hive,
    pub subkey: String,
}

/// What a [`KeyPath`] names.
#[verifier::ext_equal]
pub struct KeyView {
    pub hive: Hive,
    pub subkey: Seq<char>,
}

impl View for KeyPath {
    type V = KeyView;

    open spec fn view(&self) -> KeyView {
        KeyView { hive: self.hive, subkey: self.subkey@ }
    }
}

/// The path above `path`, when it has more than one component.
pub open spec fn parent_path(path: Seq<char>) -> Option<Seq<char>>
    decreases path.len(),
{
    if path.len() == 0 {
        None
    } else if path.last() == '\\' {
        Some(path.drop_last())
    } else {
        parent_path(path.drop_last())
    }
}

/// The path above `path`, when it has more than one component.
pub fn parent_path_of(path: &str) -> (r: Option<String>)
    ensures
        text::option_view(r) == parent_path(path@),
{
    let v = text::chars_of(path);
    let mut n: usize = v.len();
    assert(v@.take(n as int) =~= v@);
    while n > 0
        invariant
            n <= v@.len(),
            v@ == path@,
            parent_path(v@.take(n as int)) == parent_path(v@),
        decreases n,
    {
        assert(v@.take(n as int).drop_last() =~= v@.take(n - 1));
        if v[n - 1] == '\\' {
            let above = text::slice_of(&v, 0, n - 1);
            assert(above@ =~= v@.take(n - 1));
            return Some(text::string_of(&above));
        }
        n = n - 1;
    }
    None
}

/// A parent is shorter.
pub proof fn lemma_parent_shorter(path: Seq<char>)
    ensures
        parent_path(path) matches Some(p) ==> p.len() < path.len() && p.is_prefix_of(path),
    decreases path.len(),
{
    if path.len() > 0 && path.last() != '\\' {
        lemma_parent_shorter(path.drop_last());
        if let Some(p) = parent_path(path.drop_last()) {
            assert(path.take(p.len() as int) =~= path.drop_last().take(p.len() as int));
        }
    }
}

/// Whether the text `inner` is `outer` or lies below it, without regard to
/// case.
pub open spec fn at_or_below(inner: Seq<char>, outer: Seq<char>) -> bool {
    ||| text::lower(inner) == text::lower(outer)
    ||| (text::lower(outer) + seq!['\\']).is_prefix_of(text::lower(inner))
}

impl KeyView {
    /// `HKCU\...` or `HKLM\...`, as the database stores it.
    pub open spec fn text(self) -> Seq<char> {
        self.hive.name() + "\\"@ + self.subkey
    }

    /// The comparison form.
    pub open spec fn key(self) -> Seq<char> {
        text::lower(self.text())
    }

    /// Whether this is `root` or a key below it.
    pub open spec fn is_under(self, root: KeyView) -> bool {
        self.hive == root.hive && at_or_below(self.subkey, root.subkey)
    }

    /// The key `name` below this one.
    pub open spec fn child(self, name: Seq<char>) -> KeyView {
        KeyView { hive: self.hive, subkey: self.subkey + "\\"@ + name }
    }

    /// The key above this one, unless this is the hive's top-level key.
    pub open spec fn parent(self) -> Option<KeyView> {
        match parent_path(self.subkey) {
            Some(above) => Some(KeyView { hive: self.hive, subkey: above }),
            None => None,
        }
    }
}

/// The key a stored text names: `HKCU\` or `HKLM\`, in any case, and a path.
pub open spec fn parsed_key(stored: Seq<char>) -> Option<KeyView> {
    if stored.len() <= 5 {
        None
    } else if text::lower(stored.take(5)) == "hkcu\\"@ {
        Some(KeyView { hive: Hive::CurrentUser, subkey: stored.skip(5) })
    } else if text::lower(stored.take(5)) == "hklm\\"@ {
        Some(KeyView { hive: Hive::LocalMachine, subkey: stored.skip(5) })
    } else {
        None
    }
}

/// The error a text that names no key is refused with.
pub open spec fn not_a_key(stored: Seq<char>) -> ErrorView {
    ErrorView {
        code: "journal_inconsistent"@,
        message: text::quoted(stored) + " is not a registry key"@,
    }
}

impl KeyPath {
    pub fn new(hive: Hive, subkey: &str) -> (r: KeyPath)
        ensures
            r@ == (KeyView { hive, subkey: subkey@ }),
    {
        KeyPath { hive, subkey: text::owned(subkey) }
    }

    /// The key a stored text names.
    pub fn parse(stored: &str) -> (r: Result<KeyPath, Error>)
        ensures
            match r {
                Ok(key) => parsed_key(stored@) == Some(key@),
                Err(e) => parsed_key(stored@) is None && e@ == not_a_key(stored@),
            },
    {
        let v = text::chars_of(stored);
        if v.len() > 5 {
            let head = text::slice_of(&v, 0, 5);
            assert(head@ =~= stored@.take(5));
            let head = text::string_of(&head);
            let head = text::lower_of(head.as_str());
            let tail = text::slice_of(&v, 5, v.len());
            assert(tail@ =~= stored@.skip(5));
            let subkey = text::string_of(&tail);
            if text::same(head.as_str(), "hkcu\\") {
                return Ok(KeyPath { hive: Hive::CurrentUser, subkey });
            }
            if text::same(head.as_str(), "hklm\\") {
                return Ok(KeyPath { hive: Hive::LocalMachine, subkey });
            }
        }
        let shown = text::quoted_of(stored);
        let message = text::cat2(shown.as_str(), " is not a registry key");
        Err(Error::new("journal_inconsistent", message.as_str()))
    }

    /// `HKCU\...` or `HKLM\...`, as the database stores it.
    pub fn to_string(&self) -> (r: String)
        ensures
            r@ == self@.text(),
    {
        text::cat3(self.hive.as_str(), "\\", self.subkey.as_str())
    }

    /// The comparison form.
    pub fn key(&self) -> (r: String)
        ensures
            r@ == self@.key(),
    {
        let shown = self.to_string();
        text::lower_of(shown.as_str())
    }

    /// Whether this is `root` or a key below it.
    pub fn is_under(&self, root: &KeyPath) -> (r: bool)
        ensures
            r == self@.is_under(root@),
    {
        self.hive == root.hive && at_or_below_of(self.subkey.as_str(), root.subkey.as_str())
    }

    /// The key `name` below this one.
    pub fn child(&self, name: &str) -> (r: KeyPath)
        ensures
            r@ == self@.child(name@),
    {
        KeyPath { hive: self.hive, subkey: text::cat3(self.subkey.as_str(), "\\", name) }
    }

    /// The key above this one, unless this is the hive's top-level key.
    pub fn parent(&self) -> (r: Option<KeyPath>)
        ensures
            text::option_view(r) == self@.parent(),
    {
        match parent_path_of(self.subkey.as_str()) {
            Some(subkey) => Some(KeyPath { hive: self.hive, subkey }),
            None => None,
        }
    }
}

impl Clone for KeyPath {
    fn clone(&self) -> (r: KeyPath)
        ensures
            r == *self,
    {
        KeyPath { hive: self.hive, subkey: self.subkey.clone() }
    }
}

/// Whether the text `inner` is `outer` or lies below it, without regard to
/// case.
pub fn at_or_below_of(inner: &str, outer: &str) -> (r: bool)
    ensures
        r == at_or_below(inner@, outer@),
{
    let x = text::lower_of(inner);
    let mut y = text::lower_of(outer);
    if x == y {
        return true;
    }
    y.push('\\');
    assert(y@ =~= text::lower(outer@) + seq!['\\']);
    text::starts_with(x.as_str(), y.as_str())
}

/// Typed registry data. A value of a type the engine never writes is carried
/// as the two column texts it is stored with.
#[derive(Debug, PartialEq, Eq)]
pub enum Data {
    String(String),
    ExpandString(String),
    Dword(u32),
    Other { kind: String, text: String },
}

/// What [`Data`] holds.
#[verifier::ext_equal]
pub enum DataView {
    String(Seq<char>),
    ExpandString(Seq<char>),
    Dword(u32),
    Other { kind: Seq<char>, text: Seq<char> },
}

impl View for Data {
    type V = DataView;

    open spec fn view(&self) -> DataView {
        match self {
            Data::String(s) => DataView::String(s@),
            Data::ExpandString(s) => DataView::ExpandString(s@),
            Data::Dword(n) => DataView::Dword(*n),
            Data::Other { kind, text } => DataView::Other { kind: kind@, text: text@ },
        }
    }
}

impl DataView {
    /// The kind column.
    pub open spec fn kind(self) -> Seq<char> {
        match self {
            DataView::String(_) => "string"@,
            DataView::ExpandString(_) => "expand_string"@,
            DataView::Dword(_) => "dword"@,
            DataView::Other { kind, .. } => kind,
        }
    }

    /// The data column.
    pub open spec fn text(self) -> Seq<char> {
        match self {
            DataView::String(s) => s,
            DataView::ExpandString(s) => s,
            DataView::Dword(n) => text::decimal(n as nat),
            DataView::Other { text, .. } => text,
        }
    }

    /// Whether the value is of a type of its own: `Other` never stands for
    /// one of the kinds the engine writes.
    pub open spec fn well_formed(self) -> bool {
        self matches DataView::Other { kind, .. } ==> kind != "string"@ && kind != "expand_string"@
            && kind != "dword"@
    }
}

/// The data two stored columns name.
pub open spec fn data_from(kind: Seq<char>, data: Seq<char>) -> Option<DataView> {
    if kind == "string"@ {
        Some(DataView::String(data))
    } else if kind == "expand_string"@ {
        Some(DataView::ExpandString(data))
    } else if kind == "dword"@ {
        match text::spells_u64(data) {
            Some(n) => if n <= u32::MAX {
                Some(DataView::Dword(n as u32))
            } else {
                None
            },
            None => None,
        }
    } else {
        Some(DataView::Other { kind, text: data })
    }
}

/// What a `dword` column that is no number is refused with.
pub open spec fn not_a_dword(data: Seq<char>) -> ErrorView {
    ErrorView {
        code: "journal_inconsistent"@,
        message: "a dword is recorded as "@ + text::quoted(data),
    }
}

/// Data stored in its two columns reads back as itself.
pub proof fn lemma_data_round_trip(d: DataView)
    requires
        d.well_formed(),
    ensures
        data_from(d.kind(), d.text()) == Some(d),
{
    reveal_strlit("string");
    reveal_strlit("expand_string");
    reveal_strlit("dword");
    match d {
        DataView::String(_) => {},
        DataView::ExpandString(_) => {
            assert("string"@.len() != "expand_string"@.len());
        },
        DataView::Dword(n) => {
            assert("string"@.len() != "dword"@.len());
            assert("expand_string"@.len() != "dword"@.len());
            text::lemma_decimal_number(n as nat);
        },
        DataView::Other { kind, .. } => {},
    }
}

impl Data {
    /// The kind column of stored data.
    pub fn kind_name(&self) -> (r: String)
        ensures
            r@ == self@.kind(),
    {
        match self {
            Data::String(_) => text::owned("string"),
            Data::ExpandString(_) => text::owned("expand_string"),
            Data::Dword(_) => text::owned("dword"),
            Data::Other { kind, .. } => kind.clone(),
        }
    }

    /// The data column of stored data.
    pub fn text(&self) -> (r: String)
        ensures
            r@ == self@.text(),
    {
        match self {
            Data::String(s) => s.clone(),
            Data::ExpandString(s) => s.clone(),
            Data::Dword(n) => text::decimal_of(*n as u64),
            Data::Other { text, .. } => text.clone(),
        }
    }

    /// The text a string value holds.
    pub fn as_text(&self) -> (r: Option<&str>)
        ensures
            match r {
                Some(s) => self@ == DataView::String(s@) || self@ == DataView::ExpandString(s@),
                None => !(self@ is String) && !(self@ is ExpandString),
            },
    {
        match self {
            Data::String(s) => Some(s.as_str()),
            Data::ExpandString(s) => Some(s.as_str()),
            _ => None,
        }
    }

    /// Reads stored data back.
    pub fn from_columns(kind: &str, data: &str) -> (r: Result<Data, Error>)
        ensures
            match r {
                Ok(d) => data_from(kind@, data@) == Some(d@),
                Err(e) => data_from(kind@, data@) is None && e@ == not_a_dword(data@),
            },
    {
        if text::same(kind, "string") {
            Ok(Data::String(text::owned(data)))
        } else if text::same(kind, "expand_string") {
            Ok(Data::ExpandString(text::owned(data)))
        } else if text::same(kind, "dword") {
            match text::parse_u64(data) {
                Some(n) => if n <= u32::MAX as u64 {
                    Ok(Data::Dword(n as u32))
                } else {
                    Err(bad_dword(data))
                },
                None => Err(bad_dword(data)),
            }
        } else {
            Ok(Data::Other { kind: text::owned(kind), text: text::owned(data) })
        }
    }

    /// Whether two values hold the same.
    pub fn same(&self, other: &Data) -> (r: bool)
        ensures
            r == (self@ == other@),
    {
        match (self, other) {
            (Data::String(a), Data::String(b)) => *a == *b,
            (Data::ExpandString(a), Data::ExpandString(b)) => *a == *b,
            (Data::Dword(a), Data::Dword(b)) => *a == *b,
            (
                Data::Other { kind: k1, text: t1 },
                Data::Other { kind: k2, text: t2 },
            ) => *k1 == *k2 && *t1 == *t2,
            _ => false,
        }
    }
}

fn bad_dword(data: &str) -> (r: Error)
    ensures
        r@ == not_a_dword(data@),
{
    let shown = text::quoted_of(data);
    let message = text::cat2("a dword is recorded as ", shown.as_str());
    Error::new("journal_inconsistent", message.as_str())
}

impl Clone for Data {
    fn clone(&self) -> (r: Data)
        ensures
            r == *self,
    {
        match self {
            Data::String(s) => Data::String(s.clone()),
            Data::ExpandString(s) => Data::ExpandString(s.clone()),
            Data::Dword(n) => Data::Dword(*n),
            Data::Other { kind, text } => Data::Other { kind: kind.clone(), text: text.clone() },
        }
    }
}

/// What a shell link or an Internet shortcut holds. An empty text is a
/// parameter the link does not carry.
#[derive(Debug, PartialEq, Eq)]
pub struct Link {
    pub target: String,
    pub arguments: String,
    pub description: String,
    pub icon: String,
    pub working_directory: String,
    pub app_user_model_id: String,
}

/// What a [`Link`] holds.
#[verifier::ext_equal]
pub struct LinkView {
    pub target: Seq<char>,
    pub arguments: Seq<char>,
    pub description: Seq<char>,
    pub icon: Seq<char>,
    pub working_directory: Seq<char>,
    pub app_user_model_id: Seq<char>,
}

impl View for Link {
    type V = LinkView;

    open spec fn view(&self) -> LinkView {
        LinkView {
            target: self.target@,
            arguments: self.arguments@,
            description: self.description@,
            icon: self.icon@,
            working_directory: self.working_directory@,
            app_user_model_id: self.app_user_model_id@,
        }
    }
}

impl Default for Link {
    fn default() -> (r: Link)
        ensures
            r.target@.len() == 0,
            r.arguments@.len() == 0,
            r.description@.len() == 0,
            r.icon@.len() == 0,
            r.working_directory@.len() == 0,
            r.app_user_model_id@.len() == 0,
    {
        Link {
            target: String::new(),
            arguments: String::new(),
            description: String::new(),
            icon: String::new(),
            working_directory: String::new(),
            app_user_model_id: String::new(),
        }
    }
}

impl Clone for Link {
    fn clone(&self) -> (r: Link)
        ensures
            r == *self,
    {
        Link {
            target: self.target.clone(),
            arguments: self.arguments.clone(),
            description: self.description.clone(),
            icon: self.icon.clone(),
            working_directory: self.working_directory.clone(),
            app_user_model_id: self.app_user_model_id.clone(),
        }
    }
}

/// What is at a shortcut's path.
#[derive(Debug, PartialEq, Eq)]
pub enum LinkInspection {
    Absent,
    Link(Link),
    /// Something that does not read as a link.
    NotALink,
}

/// One Windows Firewall rule.
#[derive(Debug, PartialEq, Eq)]
pub struct Rule {
    pub name: String,
    pub description: String,
    pub grouping: String,
    pub program: String,
    pub direction: String,
    pub action: String,
    pub protocol: String,
    pub local_ports: String,
    pub enabled: bool,
}

/// What a [`Rule`] says.
#[verifier::ext_equal]
pub struct RuleView {
    pub name: Seq<char>,
    pub description: Seq<char>,
    pub grouping: Seq<char>,
    pub program: Seq<char>,
    pub direction: Seq<char>,
    pub action: Seq<char>,
    pub protocol: Seq<char>,
    pub local_ports: Seq<char>,
    pub enabled: bool,
}

impl View for Rule {
    type V = RuleView;

    open spec fn view(&self) -> RuleView {
        RuleView {
            name: self.name@,
            description: self.description@,
            grouping: self.grouping@,
            program: self.program@,
            direction: self.direction@,
            action: self.action@,
            protocol: self.protocol@,
            local_ports: self.local_ports@,
            enabled: self.enabled,
        }
    }
}

impl RuleView {
    /// The texts a rule is stored as.
    pub open spec fn fields(self) -> Seq<Seq<char>> {
        seq![
            self.name,
            self.description,
            self.grouping,
            self.program,
            self.direction,
            self.action,
            self.protocol,
            self.local_ports,
            if self.enabled {
                "true"@
            } else {
                "false"@
            },
        ]
    }

    /// The stored form of a rule.
    pub open spec fn stored(self) -> Seq<char> {
        packed::packed(self.fields())
    }
}

/// Rules stored alike are the same rule.
pub proof fn lemma_rule_round_trip(a: RuleView, b: RuleView)
    requires
        a.stored() == b.stored(),
    ensures
        a == b,
{
    packed::lemma_packed_injective(a.fields(), b.fields());
    let x = a.fields();
    let y = b.fields();
    assert(x[0] == y[0] && x[1] == y[1] && x[2] == y[2] && x[3] == y[3] && x[4] == y[4] && x[5]
        == y[5] && x[6] == y[6] && x[7] == y[7] && x[8] == y[8]);
    reveal_strlit("true");
    reveal_strlit("false");
    assert("true"@.len() != "false"@.len());
}

/// What a text that is no stored rule is refused with.
pub open spec fn not_a_rule() -> ErrorView {
    ErrorView { code: "journal_inconsistent"@, message: "a stored firewall rule does not read"@ }
}

/// The rule a stored text holds.
pub open spec fn rule_in(stored: Seq<char>) -> Result<RuleView, ErrorView> {
    if exists|rule: RuleView| #[trigger] rule.stored() == stored {
        Ok(choose|rule: RuleView| #[trigger] rule.stored() == stored)
    } else {
        Err(not_a_rule())
    }
}

/// What a rule is stored as reads back as the rule.
pub proof fn lemma_rule_in(rule: RuleView)
    ensures
        rule_in(rule.stored()) == Ok::<RuleView, ErrorView>(rule),
{
    let found = choose|r: RuleView| #[trigger] r.stored() == rule.stored();
    lemma_rule_round_trip(found, rule);
}

impl Rule {
    /// The stored form of the rule.
    pub fn serialize(&self) -> (r: String)
        ensures
            r@ == self@.stored(),
    {
        let mut fields: Vec<String> = Vec::new();
        fields.push(self.name.clone());
        fields.push(self.description.clone());
        fields.push(self.grouping.clone());
        fields.push(self.program.clone());
        fields.push(self.direction.clone());
        fields.push(self.action.clone());
        fields.push(self.protocol.clone());
        fields.push(self.local_ports.clone());
        fields.push(
            if self.enabled {
                text::owned("true")
            } else {
                text::owned("false")
            },
        );
        assert(text::views(fields@) =~= self@.fields());
        packed::pack(&fields)
    }

    /// The rule a stored text holds.
    pub fn deserialize(stored: &str) -> (r: Result<Rule, Error>)
        ensures
            match (r, rule_in(stored@)) {
                (Ok(rule), Ok(b)) => rule@ == b && rule@.stored() == stored@,
                (Err(e), Err(b)) => e@ == b,
                _ => false,
            },
    {
        let fields = match packed::unpack(stored) {
            None => {
                proof {
                    assert forall|rule: RuleView| #[trigger] rule.stored() != stored@ by {
                        assert(packed::packed(rule.fields()) != stored@);
                    }
                }
                return Err(
                    Error::new("journal_inconsistent", "a stored firewall rule does not read"),
                );
            },
            Some(fields) => fields,
        };
        let ghost read = text::views(fields@);
        proof {
            assert forall|rule: RuleView| #[trigger] rule.stored() == stored@ implies read
                == rule.fields() by {
                packed::lemma_packed_injective(read, rule.fields());
            }
        }
        if fields.len() == 9 {
            let on = text::same(fields[8].as_str(), "true");
            let off = text::same(fields[8].as_str(), "false");
            if on || off {
                let rule = Rule {
                    name: fields[0].clone(),
                    description: fields[1].clone(),
                    grouping: fields[2].clone(),
                    program: fields[3].clone(),
                    direction: fields[4].clone(),
                    action: fields[5].clone(),
                    protocol: fields[6].clone(),
                    local_ports: fields[7].clone(),
                    enabled: on,
                };
                assert(rule@.fields() =~= read);
                proof {
                    lemma_rule_in(rule@);
                }
                return Ok(rule);
            }
            proof {
                assert forall|rule: RuleView| #[trigger] rule.stored() != stored@ by {
                    assert(read[8] == fields@[8]@);
                }
            }
        }
        Err(Error::new("journal_inconsistent", "a stored firewall rule does not read"))
    }
}

impl Clone for Rule {
    fn clone(&self) -> (r: Rule)
        ensures
            r == *self,
    {
        Rule {
            name: self.name.clone(),
            description: self.description.clone(),
            grouping: self.grouping.clone(),
            program: self.program.clone(),
            direction: self.direction.clone(),
            action: self.action.clone(),
            protocol: self.protocol.clone(),
            local_ports: self.local_ports.clone(),
            enabled: self.enabled,
        }
    }
}

/// A file the machine holds.
#[derive(Debug, Clone, PartialEq, Eq)]
pub struct FileSeen {
    /// Absolute path.
    pub path: String,
    pub sha256: String,
    pub size: u64,
    /// The last-write time, where the file system gives one.
    pub modified: Option<i64>,
}

/// A registry value the machine holds.
#[derive(Debug, Clone, PartialEq, Eq)]
pub struct ValueSeen {
    pub key: KeyPath,
    pub name: String,
    pub data: Data,
}

/// A shortcut path the machine was asked about.
#[derive(Debug, PartialEq, Eq)]
pub struct LinkSeen {
    pub path: String,
    pub found: LinkInspection,
}

/// A snapshot of the machine: what a run may ask about it, answered. Keys and
/// names are looked up without regard to case, and paths by where they lead.
#[derive(Debug, PartialEq, Eq)]
pub struct Machine {
    /// The directories that exist, by absolute path.
    pub directories: Vec<String>,
    pub files: Vec<FileSeen>,
    /// The registry keys that exist.
    pub keys: Vec<KeyPath>,
    pub values: Vec<ValueSeen>,
    pub links: Vec<LinkSeen>,
    pub rules: Vec<Rule>,
    /// The environment of the process: the name and value of each variable.
    pub environment: Vec<(String, String)>,
    /// The known folders a template may name: `LOCALAPPDATA`, `PROGRAMS` and
    /// the like, each with its path.
    pub known_folders: Vec<(String, String)>,
    /// The version each file that carries one states: its path and version.
    pub file_versions: Vec<(String, String)>,
}

/// Holds of the directory at `path`.
pub open spec fn names_path(path: Seq<char>) -> spec_fn(String) -> bool {
    |d: String| paths::same_place(d@, path)
}

/// Whether a path can name a file: one that ends in a separator names a
/// directory.
pub open spec fn names_file(path: Seq<char>) -> bool {
    path.len() > 0 && !target::is_separator(path.last())
}

fn can_name_file(path: &str) -> (r: bool)
    ensures
        r == names_file(path@),
{
    let v = text::chars_of(path);
    v.len() > 0 && !target::separates(v[v.len() - 1])
}

/// Holds of the file at `path`.
pub open spec fn file_at(path: Seq<char>) -> spec_fn(FileSeen) -> bool {
    |f: FileSeen| names_file(path) && paths::same_place(f.path@, path)
}

/// Holds of the key `key`.
pub open spec fn key_is(key: KeyView) -> spec_fn(KeyPath) -> bool {
    |k: KeyPath| k@.key() == key.key()
}

/// Holds of the value `name` of `key`.
pub open spec fn value_is(key: KeyView, name: Seq<char>) -> spec_fn(ValueSeen) -> bool {
    |v: ValueSeen| v.key@.key() == key.key() && text::lower(v.name@) == text::lower(name)
}

/// Holds of the shortcut at `path`.
pub open spec fn link_at(path: Seq<char>) -> spec_fn(LinkSeen) -> bool {
    |l: LinkSeen| names_file(path) && paths::same_place(l.path@, path)
}

/// Holds of the rules named `name`.
pub open spec fn rule_named(name: Seq<char>) -> spec_fn(Rule) -> bool {
    |r: Rule| text::lower(r.name@) == text::lower(name)
}

/// Holds of the version of the file at `path`.
pub open spec fn version_at(path: Seq<char>) -> spec_fn((String, String)) -> bool {
    |v: (String, String)| names_file(path) && paths::same_place(v.0@, path)
}

/// Holds of the variable `name`.
pub open spec fn variable_named(name: Seq<char>) -> spec_fn((String, String)) -> bool {
    |v: (String, String)| text::lower(v.0@) == text::lower(name)
}

impl Machine {
    /// A machine that holds nothing.
    pub fn empty() -> (r: Machine)
        ensures
            r.directories@.len() == 0,
            r.files@.len() == 0,
            r.keys@.len() == 0,
            r.values@.len() == 0,
            r.links@.len() == 0,
            r.rules@.len() == 0,
            r.environment@.len() == 0,
            r.known_folders@.len() == 0,
            r.file_versions@.len() == 0,
    {
        Machine {
            directories: Vec::new(),
            files: Vec::new(),
            keys: Vec::new(),
            values: Vec::new(),
            links: Vec::new(),
            rules: Vec::new(),
            environment: Vec::new(),
            known_folders: Vec::new(),
            file_versions: Vec::new(),
        }
    }

    pub open spec fn has_directory(self, path: Seq<char>) -> bool {
        lists::first(self.directories@, names_path(path)) is Some
    }

    /// Whether the directory exists.
    pub fn directory_exists(&self, path: &str) -> (r: bool)
        ensures
            r == self.has_directory(path@),
    {
        let there = paths::place_of(path);
        let mut i: usize = 0;
        while i < self.directories.len()
            invariant
                i <= self.directories@.len(),
                text::views(there@) == paths::place(path@),
                forall|j: int|
                    0 <= j < i ==> !names_path(path@)(#[trigger] self.directories@[j]),
            decreases self.directories@.len() - i,
        {
            if paths::leads_to(self.directories[i].as_str(), &there) {
                proof {
                    lists::lemma_first_at(self.directories@, names_path(path@), i as int);
                }
                return true;
            }
            i = i + 1;
        }
        proof {
            lists::lemma_first_none(self.directories@, names_path(path@));
        }
        false
    }

    pub open spec fn file(self, path: Seq<char>) -> Option<FileSeen> {
        lists::first(self.files@, file_at(path))
    }

    /// The file at a path, when there is one.
    pub fn inspect_file(&self, path: &str) -> (r: Option<&FileSeen>)
        ensures
            match r {
                Some(f) => self.file(path@) == Some(*f),
                None => self.file(path@) is None,
            },
    {
        let there = paths::place_of(path);
        let named = can_name_file(path);
        let mut i: usize = 0;
        while i < self.files.len()
            invariant
                i <= self.files@.len(),
                text::views(there@) == paths::place(path@),
                named == names_file(path@),
                forall|j: int| 0 <= j < i ==> !file_at(path@)(#[trigger] self.files@[j]),
            decreases self.files@.len() - i,
        {
            if named && paths::leads_to(self.files[i].path.as_str(), &there) {
                proof {
                    lists::lemma_first_at(self.files@, file_at(path@), i as int);
                }
                return Some(&self.files[i]);
            }
            i = i + 1;
        }
        proof {
            lists::lemma_first_none(self.files@, file_at(path@));
        }
        None
    }

    pub open spec fn has_key(self, key: KeyView) -> bool {
        lists::first(self.keys@, key_is(key)) is Some
    }

    /// Whether the registry key exists.
    pub fn key_exists(&self, key: &KeyPath) -> (r: bool)
        ensures
            r == self.has_key(key@),
    {
        let wanted = key.key();
        let mut i: usize = 0;
        while i < self.keys.len()
            invariant
                i <= self.keys@.len(),
                wanted@ == key@.key(),
                forall|j: int| 0 <= j < i ==> !key_is(key@)(#[trigger] self.keys@[j]),
            decreases self.keys@.len() - i,
        {
            if self.keys[i].key() == wanted {
                proof {
                    lists::lemma_first_at(self.keys@, key_is(key@), i as int);
                }
                return true;
            }
            i = i + 1;
        }
        proof {
            lists::lemma_first_none(self.keys@, key_is(key@));
        }
        false
    }

    pub open spec fn value(self, key: KeyView, name: Seq<char>) -> Option<DataView> {
        match lists::first(self.values@, value_is(key, name)) {
            Some(v) => Some(v.data@),
            None => None,
        }
    }

    /// The data of a registry value, when the key holds it.
    pub fn read_value(&self, key: &KeyPath, name: &str) -> (r: Option<&Data>)
        ensures
            text::option_view(r) == self.value(key@, name@),
    {
        let wanted = key.key();
        let mut i: usize = 0;
        while i < self.values.len()
            invariant
                i <= self.values@.len(),
                wanted@ == key@.key(),
                forall|j: int| 0 <= j < i ==> !value_is(key@, name@)(#[trigger] self.values@[j]),
            decreases self.values@.len() - i,
        {
            if self.values[i].key.key() == wanted && text::same_folded(
                self.values[i].name.as_str(),
                name,
            ) {
                proof {
                    lists::lemma_first_at(self.values@, value_is(key@, name@), i as int);
                }
                return Some(&self.values[i].data);
            }
            i = i + 1;
        }
        proof {
            lists::lemma_first_none(self.values@, value_is(key@, name@));
        }
        None
    }

    pub open spec fn link(self, path: Seq<char>) -> LinkInspection {
        match lists::first(self.links@, link_at(path)) {
            Some(l) => l.found,
            None => LinkInspection::Absent,
        }
    }

    /// What is at a shortcut's path.
    pub fn inspect_link(&self, path: &str) -> (r: &LinkInspection)
        ensures
            *r == self.link(path@),
    {
        let there = paths::place_of(path);
        let named = can_name_file(path);
        let mut i: usize = 0;
        while i < self.links.len()
            invariant
                i <= self.links@.len(),
                text::views(there@) == paths::place(path@),
                named == names_file(path@),
                forall|j: int| 0 <= j < i ==> !link_at(path@)(#[trigger] self.links@[j]),
            decreases self.links@.len() - i,
        {
            if named && paths::leads_to(self.links[i].path.as_str(), &there) {
                proof {
                    lists::lemma_first_at(self.links@, link_at(path@), i as int);
                }
                return &self.links[i].found;
            }
            i = i + 1;
        }
        proof {
            lists::lemma_first_none(self.links@, link_at(path@));
        }
        &LinkInspection::Absent
    }

    pub open spec fn rules_named(self, name: Seq<char>) -> Seq<RuleView> {
        text::views(self.rules@.filter(rule_named(name)))
    }

    /// Every firewall rule of a name.
    pub fn list_rules(&self, name: &str) -> (r: Vec<Rule>)
        ensures
            text::views(r@) == self.rules_named(name@),
    {
        let mut out: Vec<Rule> = Vec::new();
        let mut i: usize = 0;
        assert(self.rules@.take(0).filter(rule_named(name@)) =~= Seq::<Rule>::empty()) by {
            reveal(Seq::filter);
        }
        while i < self.rules.len()
            invariant
                i <= self.rules@.len(),
                out@ == self.rules@.take(i as int).filter(rule_named(name@)),
            decreases self.rules@.len() - i,
        {
            proof {
                lists::lemma_filter_take(self.rules@, rule_named(name@), i as int);
            }
            if text::same_folded(self.rules[i].name.as_str(), name) {
                out.push(self.rules[i].clone());
            }
            i = i + 1;
        }
        assert(self.rules@.take(i as int) =~= self.rules@);
        out
    }

    pub open spec fn variable(self, name: Seq<char>) -> Option<Seq<char>> {
        named(self.environment@, name)
    }

    /// The value of an environment variable of the process.
    pub fn environment_variable(&self, name: &str) -> (r: Option<&str>)
        ensures
            text::option_view(r) == self.variable(name@),
    {
        named_of(&self.environment, name)
    }

    pub open spec fn folder(self, name: Seq<char>) -> Option<Seq<char>> {
        named(self.known_folders@, name)
    }

    /// The path of a known folder.
    pub fn known_folder(&self, name: &str) -> (r: Option<&str>)
        ensures
            text::option_view(r) == self.folder(name@),
    {
        named_of(&self.known_folders, name)
    }

    /// The version a file states.
    pub open spec fn version(self, path: Seq<char>) -> Option<Seq<char>> {
        match lists::first(self.file_versions@, version_at(path)) {
            Some(v) => Some(v.1@),
            None => None,
        }
    }

    /// The version a file states.
    pub fn file_version(&self, path: &str) -> (r: Option<&str>)
        ensures
            text::option_view(r) == self.version(path@),
    {
        let there = paths::place_of(path);
        let named = can_name_file(path);
        let mut i: usize = 0;
        while i < self.file_versions.len()
            invariant
                i <= self.file_versions@.len(),
                text::views(there@) == paths::place(path@),
                named == names_file(path@),
                forall|j: int|
                    0 <= j < i ==> !version_at(path@)(#[trigger] self.file_versions@[j]),
            decreases self.file_versions@.len() - i,
        {
            if named && paths::leads_to(self.file_versions[i].0.as_str(), &there) {
                proof {
                    lists::lemma_first_at(self.file_versions@, version_at(path@), i as int);
                }
                return Some(self.file_versions[i].1.as_str());
            }
            i = i + 1;
        }
        proof {
            lists::lemma_first_none(self.file_versions@, version_at(path@));
        }
        None
    }
}

/// What a list of names and values holds for `name`.
pub open spec fn named(pairs: Seq<(String, String)>, name: Seq<char>) -> Option<Seq<char>> {
    match lists::first(pairs, variable_named(name)) {
        Some(v) => Some(v.1@),
        None => None,
    }
}

/// What a list of names and values holds for `name`.
fn named_of<'a>(pairs: &'a Vec<(String, String)>, name: &str) -> (r: Option<&'a str>)
    ensures
        text::option_view(r) == named(pairs@, name@),
{
    let mut i: usize = 0;
    while i < pairs.len()
        invariant
            i <= pairs@.len(),
            forall|j: int| 0 <= j < i ==> !variable_named(name@)(#[trigger] pairs@[j]),
        decreases pairs@.len() - i,
    {
        if text::same_folded(pairs[i].0.as_str(), name) {
            proof {
                lists::lemma_first_at(pairs@, variable_named(name@), i as int);
            }
            return Some(pairs[i].1.as_str());
        }
        i = i + 1;
    }
    proof {
        lists::lemma_first_none(pairs@, variable_named(name@));
    }
    None
}

/// A key reads back from its text, in any case of the hive's name.
pub proof fn lemma_a_key_reads_back(key: KeyView)
    requires
        key.subkey.len() > 0,
    ensures
        parsed_key(key.text()) == Some(key),
{
    reveal_strlit("HKCU");
    reveal_strlit("HKLM");
    reveal_strlit("hkcu\\");
    reveal_strlit("hklm\\");
    reveal_strlit("\\");
    let t = key.text();
    assert(t.skip(5) =~= key.subkey);
    if key.hive == Hive::CurrentUser {
        assert(text::lower(t.take(5)) =~= "hkcu\\"@);
    } else {
        assert(text::lower(t.take(5)) =~= "hklm\\"@);
        assert(text::lower(t.take(5))[2] == 'l');
        assert("hkcu\\"@[2] == 'c');
    }
}

/// What lies under a key: the key itself and what goes on after it and a
/// separator, in the same hive and in any case.
pub proof fn lemma_what_lies_under_a_key(root: KeyView, name: Seq<char>, other: KeyView)
    ensures
        root.is_under(root),
        root.child(name).is_under(root),
        other.is_under(root) ==> other.hive == root.hive && other.subkey.len() >= root.subkey.len(),
        other.is_under(root) && other.subkey.len() > root.subkey.len() ==> other.subkey[
            root.subkey.len() as int
        ] == '\\' && text::lower(other.subkey.take(root.subkey.len() as int)) == text::lower(
            root.subkey,
        ),
        other.is_under(root) && other.subkey.len() == root.subkey.len() ==> text::lower(other.subkey)
            == text::lower(root.subkey),
        !name.contains('\\') ==> root.child(name).parent() == Some(root),
{
    reveal_strlit("\\");
    assert("\\"@ =~= seq!['\\']);
    let c = root.child(name);
    let n = root.subkey.len() as int;
    assert(text::lower(c.subkey).take(n + 1) =~= text::lower(root.subkey) + seq!['\\']);
    if other.is_under(root) && other.subkey.len() > n {
        let o = text::lower(other.subkey);
        let r = text::lower(root.subkey) + seq!['\\'];
        assert(o.len() == other.subkey.len());
        assert(o != text::lower(root.subkey)) by {
            assert(text::lower(root.subkey).len() == n);
        }
        assert(o.take(n + 1) =~= r);
        assert(o[n] == r[n]);
        text::lemma_what_folding_changes(other.subkey, n);
        assert(text::lower(other.subkey.take(n)) =~= o.take(n));
        assert(r.take(n) =~= text::lower(root.subkey));
        assert(o.take(n) =~= r.take(n)) by {
            assert forall|i: int| 0 <= i < n implies o[i] == r[i] by {
                assert(o.take(n + 1)[i] == o[i]);
            }
        }
    }
    if !name.contains('\\') {
        lemma_parent_of(root.subkey, name);
    }
}

proof fn lemma_parent_of(above: Seq<char>, name: Seq<char>)
    requires
        !name.contains('\\'),
    ensures
        parent_path(above + seq!['\\'] + name) == Some(above),
    decreases name.len(),
{
    let p = above + seq!['\\'] + name;
    if name.len() == 0 {
        assert(p.drop_last() =~= above);
    } else {
        let less = name.drop_last();
        assert(name.contains(name[name.len() - 1]));
        assert(!less.contains('\\')) by {
            if less.contains('\\') {
                let i = choose|i: int| 0 <= i < less.len() && less[i] == '\\';
                assert(name[i] == '\\');
                assert(name.contains(name[i]));
            }
        }
        assert(p.drop_last() =~= above + seq!['\\'] + less);
        lemma_parent_of(above, less);
    }
}

/// What the machine is said to hold is what was seen of it: the first that has
/// the name asked for, without regard to case.
pub proof fn lemma_what_was_seen_is_there(m: Machine, key: KeyView, name: Seq<char>)
    ensures
        match m.value(key, name) {
            Some(d) => exists|i: int|
                0 <= i < m.values@.len() && (#[trigger] m.values@[i]).data@ == d && text::lower(
                    m.values@[i].key@.text(),
                ) == text::lower(key.text()) && text::lower(m.values@[i].name@) == text::lower(name),
            None => forall|i: int|
                0 <= i < m.values@.len() ==> text::lower((#[trigger] m.values@[i]).key@.text())
                    != text::lower(key.text()) || text::lower(m.values@[i].name@) != text::lower(
                    name,
                ),
        },
        m.has_key(key) <==> exists|i: int|
            0 <= i < m.keys@.len() && text::lower((#[trigger] m.keys@[i])@.text()) == text::lower(
                key.text(),
            ),
        match m.variable(name) {
            Some(v) => exists|i: int|
                0 <= i < m.environment@.len() && (#[trigger] m.environment@[i]).1@ == v
                    && text::lower(m.environment@[i].0@) == text::lower(name),
            None => forall|i: int|
                0 <= i < m.environment@.len() ==> text::lower((#[trigger] m.environment@[i]).0@)
                    != text::lower(name),
        },
        match m.folder(name) {
            Some(v) => exists|i: int|
                0 <= i < m.known_folders@.len() && (#[trigger] m.known_folders@[i]).1@ == v
                    && text::lower(m.known_folders@[i].0@) == text::lower(name),
            None => forall|i: int|
                0 <= i < m.known_folders@.len() ==> text::lower((#[trigger] m.known_folders@[i]).0@)
                    != text::lower(name),
        },
{
    lists::lemma_first_fits(m.values@, value_is(key, name));
    lists::lemma_first_fits(m.keys@, key_is(key));
    lists::lemma_first_fits(m.environment@, variable_named(name));
    lists::lemma_first_fits(m.known_folders@, variable_named(name));
    match lists::first(m.values@, value_is(key, name)) {
        Some(v) => {
            let i = choose|i: int| 0 <= i < m.values@.len() && m.values@[i] == v;
            assert(m.values@[i].data@ == v.data@);
        },
        None => {
            assert forall|i: int| 0 <= i < m.values@.len() implies text::lower(
                (#[trigger] m.values@[i]).key@.text(),
            ) != text::lower(key.text()) || text::lower(m.values@[i].name@) != text::lower(name) by {
                assert(!value_is(key, name)(m.values@[i]));
            }
        },
    }
    match lists::first(m.keys@, key_is(key)) {
        Some(k) => {
            let i = choose|i: int| 0 <= i < m.keys@.len() && m.keys@[i] == k;
            assert(text::lower(m.keys@[i]@.text()) == text::lower(key.text()));
        },
        None => {
            assert forall|i: int| 0 <= i < m.keys@.len() implies text::lower(
                (#[trigger] m.keys@[i])@.text(),
            ) != text::lower(key.text()) by {
                assert(!key_is(key)(m.keys@[i]));
            }
        },
    }
    lemma_named_pairs(m.environment@, name);
    lemma_named_pairs(m.known_folders@, name);
}

proof fn lemma_named_pairs(pairs: Seq<(String, String)>, name: Seq<char>)
    ensures
        match named(pairs, name) {
            Some(v) => exists|i: int|
                0 <= i < pairs.len() && (#[trigger] pairs[i]).1@ == v && text::lower(pairs[i].0@)
                    == text::lower(name),
            None => forall|i: int|
                0 <= i < pairs.len() ==> text::lower((#[trigger] pairs[i]).0@) != text::lower(name),
        },
{
    lists::lemma_first_fits(pairs, variable_named(name));
    match lists::first(pairs, variable_named(name)) {
        Some(p) => {
            let i = choose|i: int| 0 <= i < pairs.len() && pairs[i] == p;
            assert(pairs[i].1@ == p.1@);
        },
        None => {
            assert forall|i: int| 0 <= i < pairs.len() implies text::lower((#[trigger] pairs[i]).0@)
                != text::lower(name) by {
                assert(!variable_named(name)(pairs[i]));
            }
        },
    }
}

/// A file, a directory or a link is there where one was seen at the same place.
pub proof fn lemma_what_is_at_a_place(m: Machine, path: Seq<char>)
    ensures
        m.has_directory(path) <==> exists|i: int|
            0 <= i < m.directories@.len() && paths::same_place((#[trigger] m.directories@[i])@, path),
        match m.file(path) {
            Some(f) => exists|i: int|
                0 <= i < m.files@.len() && #[trigger] m.files@[i] == f && paths::same_place(
                    f.path@,
                    path,
                ),
            None => path.len() == 0 || path.last() == '\\' || path.last() == '/' || forall|i: int|
                0 <= i < m.files@.len() ==> !paths::same_place((#[trigger] m.files@[i]).path@, path),
        },
        match m.link(path) {
            LinkInspection::Absent => true,
            found => exists|i: int|
                0 <= i < m.links@.len() && (#[trigger] m.links@[i]).found == found
                    && paths::same_place(m.links@[i].path@, path),
        },
{
    lists::lemma_first_fits(m.directories@, names_path(path));
    lists::lemma_first_fits(m.files@, file_at(path));
    lists::lemma_first_fits(m.links@, link_at(path));
    match lists::first(m.directories@, names_path(path)) {
        Some(d) => {
            let i = choose|i: int| 0 <= i < m.directories@.len() && m.directories@[i] == d;
            assert(paths::same_place(m.directories@[i]@, path));
        },
        None => {
            assert forall|i: int| 0 <= i < m.directories@.len() implies !paths::same_place(
                (#[trigger] m.directories@[i])@,
                path,
            ) by {
                assert(!names_path(path)(m.directories@[i]));
            }
        },
    }
    match lists::first(m.files@, file_at(path)) {
        Some(f) => {
            let i = choose|i: int| 0 <= i < m.files@.len() && m.files@[i] == f;
            assert(m.files@[i] == f);
        },
        None => {
            if names_file(path) {
                assert forall|i: int| 0 <= i < m.files@.len() implies !paths::same_place(
                    (#[trigger] m.files@[i]).path@,
                    path,
                ) by {
                    assert(!file_at(path)(m.files@[i]));
                }
            }
        },
    }
    match lists::first(m.links@, link_at(path)) {
        Some(l) => {
            let i = choose|i: int| 0 <= i < m.links@.len() && m.links@[i] == l;
            assert(m.links@[i].found == l.found);
        },
        None => {},
    }
}

}
