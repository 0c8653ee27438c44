//! One typed operation of a plan: what it does, to which resource, and what
//! it has to know to do it and to undo it.

use vstd::prelude::*;

use crate::action::definition;
use crate::action::definition::{Action, ActionView, Quiescence, QuiescenceView};
use crate::machine::{Data, DataView, KeyPath, KeyView, Link, LinkView, Rule, RuleView};
use crate::state::journal::OpKind;
use crate::text;

verus! {

/// The `restore_kind` of a value that did not exist before the engine set
/// it: the removal deletes it.
pub const RESTORE_ABSENT: &'static str = "absent";

/// One operation of a plan.
#[derive(Debug, PartialEq, Eq)]
pub struct PlannedOperation {
    pub kind: OpKind,
    /// The resource identity of the kind.
    pub target: String,
    pub payload_entry: Option<String>,
    pub expected_size: Option<u64>,
    /// Keeps only: the hash the kept file is owned by.
    pub applied_sha256: Option<String>,
    /// Keeps only: the last-write time the kept file is owned with.
    pub applied_modified: Option<i64>,
    /// Keeps only: the record carried forward (`false` for a directory or key
    /// the engine created, `true` for a kept file or a PATH entry that
    /// pre-existed).
    pub previous_existed: Option<bool>,
    pub value_name: Option<String>,
    pub value_kind: Option<String>,
    pub value_data: Option<String>,
    pub link_arguments: Option<String>,
    pub link_description: Option<String>,
    pub link_icon: Option<String>,
    /// Values and environment variables: the pre-installation state a removal
    /// puts back and a keep carries forward — a kind and data, or the kind
    /// [`RESTORE_ABSENT`] for one the engine created. `None` on a set of one
    /// the engine did not own yet, whose prepare step records what it finds.
    pub restore_kind: Option<String>,
    pub restore_data: Option<String>,
    /// Shortcuts: the AppUserModelID written into the link.
    pub link_app_user_model_id: Option<String>,
    /// Shortcuts: the working directory written into the link.
    pub link_working_directory: Option<String>,
}

/// What a [`PlannedOperation`] says.
#[verifier::ext_equal]
pub struct OpView {
    pub kind: OpKind,
    pub target: Seq<char>,
    pub payload_entry: Option<Seq<char>>,
    pub expected_size: Option<u64>,
    pub applied_sha256: Option<Seq<char>>,
    pub applied_modified: Option<i64>,
    pub previous_existed: Option<bool>,
    pub value_name: Option<Seq<char>>,
    pub value_kind: Option<Seq<char>>,
    pub value_data: Option<Seq<char>>,
    pub link_arguments: Option<Seq<char>>,
    pub link_description: Option<Seq<char>>,
    pub link_icon: Option<Seq<char>>,
    pub restore_kind: Option<Seq<char>>,
    pub restore_data: Option<Seq<char>>,
    pub link_app_user_model_id: Option<Seq<char>>,
    pub link_working_directory: Option<Seq<char>>,
}

impl View for PlannedOperation {
    type V = OpView;

    open spec fn view(&self) -> OpView {
        OpView {
            kind: self.kind,
            target: self.target@,
            payload_entry: text::option_view(self.payload_entry),
            expected_size: self.expected_size,
            applied_sha256: text::option_view(self.applied_sha256),
            applied_modified: self.applied_modified,
            previous_existed: self.previous_existed,
            value_name: text::option_view(self.value_name),
            value_kind: text::option_view(self.value_kind),
            value_data: text::option_view(self.value_data),
            link_arguments: text::option_view(self.link_arguments),
            link_description: text::option_view(self.link_description),
            link_icon: text::option_view(self.link_icon),
            restore_kind: text::option_view(self.restore_kind),
            restore_data: text::option_view(self.restore_data),
            link_app_user_model_id: text::option_view(self.link_app_user_model_id),
            link_working_directory: text::option_view(self.link_working_directory),
        }
    }
}

/// An operation that says nothing but its kind and its target.
pub open spec fn bare(kind: OpKind, target: Seq<char>) -> OpView {
    OpView {
        kind,
        target,
        payload_entry: None,
        expected_size: None,
        applied_sha256: None,
        applied_modified: None,
        previous_existed: None,
        value_name: None,
        value_kind: None,
        value_data: None,
        link_arguments: None,
        link_description: None,
        link_icon: None,
        restore_kind: None,
        restore_data: None,
        link_app_user_model_id: None,
        link_working_directory: None,
    }
}

/// The writing of one payload file.
pub open spec fn install_file(target: Seq<char>, entry: Seq<char>, size: u64) -> OpView {
    OpView {
        payload_entry: Some(entry),
        expected_size: Some(size),
        ..bare(OpKind::InstallFile, target)
    }
}

/// A keep of a file that already reads as the package wants.
pub open spec fn keep_file(
    target: Seq<char>,
    size: u64,
    sha256: Seq<char>,
    modified: Option<i64>,
) -> OpView {
    OpView {
        expected_size: Some(size),
        applied_sha256: Some(sha256),
        applied_modified: modified,
        previous_existed: Some(true),
        ..bare(OpKind::KeepFile, target)
    }
}

/// A keep that carries a record of what existed forward.
pub open spec fn carried(kind: OpKind, target: Seq<char>, previous_existed: bool) -> OpView {
    OpView { previous_existed: Some(previous_existed), ..bare(kind, target) }
}

/// The removal of an owned file.
pub open spec fn remove_file(target: Seq<char>, size: u64) -> OpView {
    OpView { expected_size: Some(size), ..bare(OpKind::RemoveFile, target) }
}

/// An operation on one PATH entry.
pub open spec fn path_entry(
    kind: OpKind,
    environment_key: KeyView,
    raw: Seq<char>,
    previous_existed: Option<bool>,
) -> OpView {
    OpView {
        previous_existed,
        value_name: Some("Path"@),
        value_data: Some(raw),
        ..bare(kind, environment_key.text())
    }
}

/// An operation on one shortcut.
pub open spec fn shortcut(kind: OpKind, link_path: Seq<char>, link: LinkView) -> OpView {
    OpView {
        value_data: Some(link.target),
        link_arguments: Some(link.arguments),
        link_description: Some(link.description),
        link_icon: Some(link.icon),
        link_app_user_model_id: Some(link.app_user_model_id),
        link_working_directory: Some(link.working_directory),
        ..bare(kind, link_path)
    }
}

/// The removal of a shortcut the engine wrote.
pub open spec fn remove_shortcut(link_path: Seq<char>, recorded_target: Seq<char>) -> OpView {
    OpView { value_data: Some(recorded_target), ..bare(OpKind::RemoveShortcut, link_path) }
}

/// An operation on a registry value or an environment variable: the key, the
/// name, the data the engine writes (or wrote), and the pre-installation
/// state to put back where it is known — data, `Some(None)` for a value the
/// engine created, or `None` on a set of a value it does not own yet, whose
/// prepare step records what it finds.
pub open spec fn value(
    kind: OpKind,
    key: KeyView,
    name: Seq<char>,
    data: DataView,
    restore: Option<Option<DataView>>,
) -> OpView {
    OpView {
        value_name: Some(name),
        value_kind: Some(data.kind()),
        value_data: Some(data.text()),
        restore_kind: match restore {
            None => None,
            Some(None) => Some("absent"@),
            Some(Some(previous)) => Some(previous.kind()),
        },
        restore_data: match restore {
            Some(Some(previous)) => Some(previous.text()),
            _ => None,
        },
        ..bare(kind, key.text())
    }
}

/// An operation on a firewall rule.
pub open spec fn firewall_rule(kind: OpKind, rule: RuleView) -> OpView {
    OpView {
        value_kind: Some("firewall_rule"@),
        value_data: Some(rule.stored()),
        ..bare(kind, rule.name)
    }
}

/// A custom action to run, or to keep for the installation's uninstall: the
/// name is the target, the definition travels in `value_data`, and a packaged
/// program's entry and size are where a file's would be.
pub open spec fn action(kind: OpKind, a: ActionView) -> OpView {
    OpView {
        value_kind: Some("action"@),
        value_data: Some(a.definition()),
        payload_entry: if a.entry.len() == 0 {
            None
        } else {
            Some(a.entry)
        },
        expected_size: if a.entry.len() == 0 {
            None
        } else {
            Some(a.size)
        },
        ..bare(kind, a.name)
    }
}

/// The store operation that records a quiescence entry, with its packaged
/// programs, for the installation's uninstall.
pub open spec fn quiescence(q: QuiescenceView) -> OpView {
    OpView {
        value_kind: Some("quiescence"@),
        value_data: Some(q.definition()),
        ..bare(OpKind::StoreAction, q.name)
    }
}

impl PlannedOperation {
    /// An operation that says nothing but its kind and its target.
    pub fn new(kind: OpKind, target: &str) -> (r: PlannedOperation)
        ensures
            r@ == bare(kind, target@),
    {
        PlannedOperation {
            kind,
            target: text::owned(target),
            payload_entry: None,
            expected_size: None,
            applied_sha256: None,
            applied_modified: None,
            previous_existed: None,
            value_name: None,
            value_kind: None,
            value_data: None,
            link_arguments: None,
            link_description: None,
            link_icon: None,
            restore_kind: None,
            restore_data: None,
            link_app_user_model_id: None,
            link_working_directory: None,
        }
    }

    /// The writing of one payload file.
    pub fn install_file(target: &str, entry: &str, size: u64) -> (r: PlannedOperation)
        ensures
            r@ == install_file(target@, entry@, size),
    {
        let mut r = PlannedOperation::new(OpKind::InstallFile, target);
        r.payload_entry = Some(text::owned(entry));
        r.expected_size = Some(size);
        r
    }

    /// A keep of a file that already reads as the package wants.
    pub fn keep_file(target: &str, size: u64, sha256: &str, modified: Option<i64>) -> (r:
        PlannedOperation)
        ensures
            r@ == keep_file(target@, size, sha256@, modified),
    {
        let mut r = PlannedOperation::new(OpKind::KeepFile, target);
        r.expected_size = Some(size);
        r.applied_sha256 = Some(text::owned(sha256));
        r.applied_modified = modified;
        r.previous_existed = Some(true);
        r
    }

    /// A keep that carries a record of what existed forward.
    pub fn carried(kind: OpKind, target: &str, previous_existed: bool) -> (r: PlannedOperation)
        ensures
            r@ == carried(kind, target@, previous_existed),
    {
        let mut r = PlannedOperation::new(kind, target);
        r.previous_existed = Some(previous_existed);
        r
    }

    /// The removal of an owned file.
    pub fn remove_file(target: &str, size: u64) -> (r: PlannedOperation)
        ensures
            r@ == remove_file(target@, size),
    {
        let mut r = PlannedOperation::new(OpKind::RemoveFile, target);
        r.expected_size = Some(size);
        r
    }

    /// An operation on one PATH entry.
    pub fn path_entry(
        kind: OpKind,
        environment_key: &KeyPath,
        raw: &str,
        previous_existed: Option<bool>,
    ) -> (r: PlannedOperation)
        ensures
            r@ == path_entry(kind, environment_key@, raw@, previous_existed),
    {
        let target = environment_key.to_string();
        let mut r = PlannedOperation::new(kind, target.as_str());
        r.previous_existed = previous_existed;
        r.value_name = Some(text::owned("Path"));
        r.value_data = Some(text::owned(raw));
        r
    }

    /// An operation on one shortcut.
    pub fn shortcut(kind: OpKind, link_path: &str, link: &Link) -> (r: PlannedOperation)
        ensures
            r@ == shortcut(kind, link_path@, link@),
    {
        let mut r = PlannedOperation::new(kind, link_path);
        r.value_data = Some(link.target.clone());
        r.link_arguments = Some(link.arguments.clone());
        r.link_description = Some(link.description.clone());
        r.link_icon = Some(link.icon.clone());
        r.link_app_user_model_id = Some(link.app_user_model_id.clone());
        r.link_working_directory = Some(link.working_directory.clone());
        r
    }

    /// The removal of a shortcut the engine wrote.
    pub fn remove_shortcut(link_path: &str, recorded_target: &str) -> (r: PlannedOperation)
        ensures
            r@ == remove_shortcut(link_path@, recorded_target@),
    {
        let mut r = PlannedOperation::new(OpKind::RemoveShortcut, link_path);
        r.value_data = Some(text::owned(recorded_target));
        r
    }

    /// An operation on a registry value or an environment variable.
    pub fn value(
        kind: OpKind,
        key: &KeyPath,
        name: &str,
        data: &Data,
        restore: Option<Option<&Data>>,
    ) -> (r: PlannedOperation)
        ensures
            r@ == value(
                kind,
                key@,
                name@,
                data@,
                match restore {
                    None => None,
                    Some(d) => Some(text::option_view(d)),
                },
            ),
    {
        let target = key.to_string();
        let mut r = PlannedOperation::new(kind, target.as_str());
        r.value_name = Some(text::owned(name));
        r.value_kind = Some(data.kind_name());
        r.value_data = Some(data.text());
        match restore {
            None => {},
            Some(None) => {
                r.restore_kind = Some(text::owned("absent"));
            },
            Some(Some(previous)) => {
                r.restore_kind = Some(previous.kind_name());
                r.restore_data = Some(previous.text());
            },
        }
        r
    }

    /// An operation on a firewall rule.
    pub fn firewall_rule(kind: OpKind, rule: &Rule) -> (r: PlannedOperation)
        ensures
            r@ == firewall_rule(kind, rule@),
    {
        let mut r = PlannedOperation::new(kind, rule.name.as_str());
        r.value_kind = Some(text::owned("firewall_rule"));
        r.value_data = Some(rule.serialize());
        r
    }

    /// A custom action to run, or to keep for the installation's uninstall.
    pub fn action(kind: OpKind, a: &Action) -> (r: PlannedOperation)
        ensures
            r@ == action(kind, a@),
    {
        let mut r = PlannedOperation::new(kind, a.name.as_str());
        r.value_kind = Some(text::owned("action"));
        r.value_data = Some(definition::serialize(a));
        if a.is_packaged() {
            r.payload_entry = Some(a.entry.clone());
            r.expected_size = Some(a.size);
        }
        r
    }

    /// The store operation that records a quiescence entry.
    pub fn quiescence(q: &Quiescence) -> (r: PlannedOperation)
        ensures
            r@ == quiescence(q@),
    {
        let mut r = PlannedOperation::new(OpKind::StoreAction, q.name.as_str());
        r.value_kind = Some(text::owned("quiescence"));
        r.value_data = Some(definition::serialize_quiescence(q));
        r
    }
}

}
