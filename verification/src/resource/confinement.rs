//! Where integrations are written: whatever a package declares, every value
//! they come to lies under the scope's software root.

use vstd::prelude::*;

use crate::error::ErrorView;
use crate::lists;
use crate::machine::{KeyView, Machine};
use crate::metadata::{
    AppPath, ContextMenuVerb, FileAssociation, Metadata, OptionView, Scope, UrlProtocol,
};
use crate::report::FindingView;
use crate::resource::integration;
use crate::resource::integration::IntegrationView;
use crate::resource::registry::DesiredValueView;
use crate::scope;
use crate::state::installation::Owned;
use crate::text;

verus! {

/// Whether every value lies at or below a key.
pub open spec fn all_under(values: Seq<DesiredValueView>, root: KeyView) -> bool {
    forall|i: int| 0 <= i < values.len() ==> (#[trigger] values[i]).key.is_under(root)
}

/// Whether every value of every integration lies at or below a key.
pub open spec fn items_under(items: Seq<IntegrationView>, root: KeyView) -> bool {
    forall|i: int| 0 <= i < items.len() ==> all_under((#[trigger] items[i]).values, root)
}

proof fn lemma_child_is_under(key: KeyView, root: KeyView, name: Seq<char>)
    requires
        key.is_under(root),
    ensures
        key.child(name).is_under(root),
{
    reveal_strlit("\\");
    text::lemma_lower_concat(key.subkey, "\\"@);
    text::lemma_lower_concat(key.subkey + "\\"@, name);
    assert(text::lower("\\"@) =~= seq!['\\']);
    let whole = text::lower(key.child(name).subkey);
    let top = text::lower(root.subkey) + seq!['\\'];
    assert(whole =~= text::lower(key.subkey) + seq!['\\'] + text::lower(name));
    assert(top.is_prefix_of(whole));
}

proof fn lemma_below(root: KeyView)
    ensures
        forall|name: Seq<char>| #[trigger] root.child(name).is_under(root),
        forall|name: Seq<char>, more: Seq<char>|
            #[trigger] root.child(name).child(more).is_under(root),
{
    assert forall|name: Seq<char>| #[trigger] root.child(name).is_under(root) by {
        lemma_child_is_under(root, root, name);
    }
    assert forall|name: Seq<char>, more: Seq<char>|
        #[trigger] root.child(name).child(more).is_under(root) by {
        lemma_child_is_under(root.child(name), root, more);
    }
}

proof fn lemma_handler(
    software: KeyView,
    prog_id: Seq<char>,
    description: Seq<char>,
    icon: Seq<char>,
    command: Seq<char>,
    url_protocol: bool,
)
    ensures
        all_under(
            integration::handler(software, prog_id, description, icon, command, url_protocol),
            software,
        ),
{
    lemma_below(software);
}

proof fn lemma_extensions(
    extensions: Seq<String>,
    prog_id: Seq<char>,
    software: KeyView,
    metadata: Metadata,
)
    ensures
        all_under(
            integration::extension_values(
                extensions,
                prog_id,
                software,
                integration::capabilities_root(metadata, software),
            ),
            software,
        ),
    decreases extensions.len(),
{
    lemma_below(software);
    if extensions.len() > 0 {
        lemma_extensions(extensions.drop_last(), prog_id, software, metadata);
    }
}

proof fn lemma_classes(
    verb: ContextMenuVerb,
    classes: Seq<Seq<char>>,
    software: KeyView,
    icon: Option<Seq<char>>,
    run: Seq<char>,
)
    ensures
        all_under(integration::classes_values(verb, classes, software, icon, run), software),
    decreases classes.len(),
{
    lemma_below(software);
    if classes.len() > 0 {
        lemma_classes(verb, classes.drop_last(), software, icon, run);
    }
}

/// Whether a step gives only integrations at or below a key.
spec fn gives_under(
    step: Result<(Seq<IntegrationView>, Seq<FindingView>), ErrorView>,
    root: KeyView,
) -> bool {
    match step {
        Ok((items, _)) => items_under(items, root),
        Err(_) => true,
    }
}

proof fn lemma_association(
    association: FileAssociation,
    metadata: Metadata,
    options: Map<Seq<char>, OptionView>,
    software: KeyView,
    install_root: Seq<char>,
)
    ensures
        gives_under(
            integration::association_step(association, metadata, options, software, install_root),
            software,
        ),
{
    assert forall|icon: Seq<char>, command: Seq<char>|
        all_under(
            #[trigger] integration::handler(
                software,
                association.prog_id@,
                association.description@,
                icon,
                command,
                false,
            ),
            software,
        ) by {
        lemma_handler(
            software,
            association.prog_id@,
            association.description@,
            icon,
            command,
            false,
        );
    }
    lemma_extensions(association.extensions@, association.prog_id@, software, metadata);
}

proof fn lemma_protocol(
    protocol: UrlProtocol,
    metadata: Metadata,
    options: Map<Seq<char>, OptionView>,
    software: KeyView,
    install_root: Seq<char>,
    machine: Machine,
    owned: Owned,
)
    ensures
        gives_under(
            integration::protocol_step(
                protocol,
                metadata,
                options,
                software,
                install_root,
                machine,
                owned,
            ),
            software,
        ),
{
    lemma_below(software);
    assert forall|prog_id: Seq<char>, description: Seq<char>, icon: Seq<char>, command: Seq<char>|
        all_under(
            #[trigger] integration::handler(software, prog_id, description, icon, command, true),
            software,
        ) by {
        lemma_handler(software, prog_id, description, icon, command, true);
    }
}

proof fn lemma_app_path(
    app_path: AppPath,
    options: Map<Seq<char>, OptionView>,
    software: KeyView,
    install_root: Seq<char>,
)
    ensures
        gives_under(
            integration::app_path_step(app_path, options, software, install_root),
            software,
        ),
{
    lemma_below(software);
}

proof fn lemma_verb(
    verb: ContextMenuVerb,
    options: Map<Seq<char>, OptionView>,
    software: KeyView,
    install_root: Seq<char>,
)
    ensures
        gives_under(integration::verb_step(verb, options, software, install_root), software),
{
    assert forall|icon: Option<Seq<char>>, run: Seq<char>|
        all_under(
            #[trigger] integration::classes_values(
                verb,
                integration::verb_classes(verb),
                software,
                icon,
                run,
            ),
            software,
        ) by {
        lemma_classes(verb, integration::verb_classes(verb), software, icon, run);
    }
}

proof fn lemma_gathered(
    steps: Seq<Result<(Seq<IntegrationView>, Seq<FindingView>), ErrorView>>,
    root: KeyView,
)
    requires
        forall|i: int| 0 <= i < steps.len() ==> gives_under(#[trigger] steps[i], root),
    ensures
        gives_under(lists::gathered(steps), root),
    decreases steps.len(),
{
    if steps.len() > 0 {
        assert forall|i: int| 0 <= i < steps.drop_last().len() implies gives_under(
            #[trigger] steps.drop_last()[i],
            root,
        ) by {
            assert(steps.drop_last()[i] == steps[i]);
        }
        lemma_gathered(steps.drop_last(), root);
        assert(gives_under(steps.last(), root));
    }
}

proof fn lemma_enabled(items: Seq<IntegrationView>, root: KeyView)
    requires
        items_under(items, root),
    ensures
        all_under(integration::enabled_values(items), root),
    decreases items.len(),
{
    if items.len() > 0 {
        assert forall|i: int| 0 <= i < items.drop_last().len() implies all_under(
            (#[trigger] items.drop_last()[i]).values,
            root,
        ) by {
            assert(items.drop_last()[i] == items[i]);
        }
        lemma_enabled(items.drop_last(), root);
        assert(all_under(items.last().values, root));
    }
}

/// Whatever a package declares and however the options stand, every value its
/// integrations come to lies under the scope's software root, so it is one the
/// scope may write.
pub proof fn lemma_integrations_stay_in_the_software_root(
    metadata: Metadata,
    options: Map<Seq<char>, OptionView>,
    s: Scope,
    install_root: Seq<char>,
    machine: Machine,
    owned: Owned,
)
    ensures
        match integration::compiled(
            metadata,
            options,
            scope::software_root(s),
            install_root,
            machine,
            owned,
        ) {
            Ok((items, _)) => forall|i: int|
                0 <= i < integration::enabled_values(items).len() ==> scope::may_mutate(
                    s,
                    (#[trigger] integration::enabled_values(items)[i]).key,
                ),
            Err(_) => true,
        },
{
    let software = scope::software_root(s);
    let steps = integration::integration_steps(
        metadata,
        options,
        software,
        install_root,
        machine,
        owned,
    );
    assert forall|i: int| 0 <= i < steps.len() implies gives_under(#[trigger] steps[i], software) by {
        let a = metadata.file_associations@.len();
        let p = metadata.url_protocols@.len();
        let q = metadata.app_paths@.len();
        if i < a {
            lemma_association(
                metadata.file_associations@[i],
                metadata,
                options,
                software,
                install_root,
            );
        } else if i < a + p {
            lemma_protocol(
                metadata.url_protocols@[i - a],
                metadata,
                options,
                software,
                install_root,
                machine,
                owned,
            );
        } else if i < a + p + q {
            lemma_app_path(metadata.app_paths@[i - a - p], options, software, install_root);
        } else {
            lemma_verb(
                metadata.context_menu_verbs@[i - a - p - q],
                options,
                software,
                install_root,
            );
        }
    }
    lemma_gathered(steps, software);
    lemma_below(software);
    if let Ok((items, _)) = integration::compiled(
        metadata,
        options,
        software,
        install_root,
        machine,
        owned,
    ) {
        assert(items_under(items, software));
        lemma_enabled(items, software);
    }
}

}
