//! What stands in the registry for an installed package: its entry among the
//! installed programs, and what hooks it into the shell.

use vstd::prelude::*;

use crate::lists;
use crate::machine::{DataView, KeyView, Machine};
use crate::metadata::{
    AppPath, ContextMenuTarget, ContextMenuVerb, FileAssociation, Metadata, OptionView, UrlProtocol,
};
use crate::plan::declared;
use crate::plan::target;
use crate::report;
use crate::resource::integration;
use crate::resource::integration::IntegrationView;
use crate::resource::registration;
use crate::resource::registry::DesiredValueView;
use crate::state::installation::Owned;
use crate::text;

verus! {

/// Whether a list of values holds one.
pub open spec fn says(
    values: Seq<DesiredValueView>,
    key: KeyView,
    name: Seq<char>,
    data: DataView,
) -> bool {
    values.contains(DesiredValueView { key, name, data })
}

proof fn lemma_says_concat(
    a: Seq<DesiredValueView>,
    b: Seq<DesiredValueView>,
    x: DesiredValueView,
)
    ensures
        (a + b).contains(x) <==> a.contains(x) || b.contains(x),
{
    if a.contains(x) {
        let i = choose|i: int| 0 <= i < a.len() && a[i] == x;
        assert((a + b)[i] == x);
    }
    if b.contains(x) {
        let i = choose|i: int| 0 <= i < b.len() && b[i] == x;
        assert((a + b)[a.len() + i] == x);
    }
    if (a + b).contains(x) {
        let i = choose|i: int| 0 <= i < (a + b).len() && (a + b)[i] == x;
        if i < a.len() {
            assert(a[i] == x);
        } else {
            assert(b[i - a.len()] == x);
        }
    }
}

/// What the registration of a package says: its name and version, as declared
/// or else the package's, where it lies, and how it is removed. Links and icon
/// are there where they are declared. Every value stands at the registration's
/// key.
pub proof fn lemma_what_a_registration_says(
    m: Metadata,
    key: KeyView,
    root: Seq<char>,
    uninstaller: Seq<char>,
    date: Seq<char>,
)
    requires
        registration::registration_values(m, key, root, uninstaller, date) is Ok,
    ensures
        ({
            let v = registration::registration_values(m, key, root, uninstaller, date)->Ok_0;
            let r = m.registration;
            let icon = target::placed_at(root, text::replaced(r.display_icon@, '/', '\\'));
            &&& forall|i: int| 0 <= i < v.len() ==> (#[trigger] v[i]).key == key
            &&& says(v, key, "DisplayName"@, DataView::String(
                if r.display_name@.len() > 0 {
                    r.display_name@
                } else {
                    m.package.name@
                },
            ))
            &&& says(v, key, "DisplayVersion"@, DataView::String(
                if r.display_version@.len() > 0 {
                    r.display_version@
                } else {
                    m.package.version@
                },
            ))
            &&& says(v, key, "Publisher"@, DataView::String(m.package.publisher@))
            &&& says(
                v,
                key,
                "InstallLocation"@,
                DataView::String(text::trim_end(root, '\\') + "\\"@),
            )
            &&& says(
                v,
                key,
                "UninstallString"@,
                DataView::String("\""@ + uninstaller + "\""@),
            )
            &&& says(
                v,
                key,
                "QuietUninstallString"@,
                DataView::String("\""@ + uninstaller + "\" uninstall --quiet"@),
            )
            &&& says(v, key, "NoModify"@, DataView::Dword(1))
            &&& says(v, key, "NoRepair"@, DataView::Dword(1))
            &&& says(v, key, "InstallDate"@, DataView::String(date))
            &&& says(
                v,
                key,
                "EstimatedSize"@,
                DataView::Dword(registration::kilobytes(m.install.estimated_size)),
            )
            &&& says(
                v,
                key,
                "VersionMajor"@,
                DataView::Dword(registration::version_part(m.package.version@, 0)),
            )
            &&& says(
                v,
                key,
                "VersionMinor"@,
                DataView::Dword(registration::version_part(m.package.version@, 1)),
            )
            &&& r.display_icon@.len() > 0 ==> icon is Ok && says(
                v,
                key,
                "DisplayIcon"@,
                DataView::String(icon->Ok_0),
            )
            &&& m.package.website_url@.len() > 0 ==> says(
                v,
                key,
                "URLInfoAbout"@,
                DataView::String(m.package.website_url@),
            )
            &&& m.package.help_url@.len() > 0 ==> says(
                v,
                key,
                "HelpLink"@,
                DataView::String(m.package.help_url@),
            )
            &&& v.len() == 12 + (if r.display_icon@.len() > 0 {
                1int
            } else {
                0
            }) + (if m.package.website_url@.len() > 0 {
                1int
            } else {
                0
            }) + (if m.package.help_url@.len() > 0 {
                1int
            } else {
                0
            })
        }),
{
    let head = registration::head_values(m, key, root);
    let icon = registration::icon_values(m, key, root)->Ok_0;
    let tail = registration::tail_values(m, key, uninstaller, date);
    let site = registration::link_values(key, "URLInfoAbout"@, m.package.website_url@);
    let help = registration::link_values(key, "HelpLink"@, m.package.help_url@);
    let v = registration::registration_values(m, key, root, uninstaller, date)->Ok_0;
    assert(v == head + icon + tail + site + help);
    let n: int = head.len() as int + icon.len();
    assert(v[0] == head[0]);
    assert(v[1] == head[1]);
    assert(v[2] == head[2]);
    assert(v[3] == head[3]);
    assert forall|i: int| 0 <= i < tail.len() implies #[trigger] v[n + i] == tail[i] by {}
    assert(v[n + 0] == tail[0]);
    assert(v[n + 1] == tail[1]);
    assert(v[n + 2] == tail[2]);
    assert(v[n + 3] == tail[3]);
    assert(v[n + 4] == tail[4]);
    assert(v[n + 5] == tail[5]);
    assert(v[n + 6] == tail[6]);
    assert(v[n + 7] == tail[7]);
    if icon.len() > 0 {
        assert(v[4] == icon[0]);
    }
    if site.len() > 0 {
        assert(v[n + 8] == site[0]);
    }
    if help.len() > 0 {
        assert(v[n + 8 + site.len()] == help[0]);
    }
}

/// The size is told in kilobytes, rounded up, as far as the number reaches.
pub proof fn lemma_a_size_is_rounded_up(bytes: u64)
    ensures
        ({
            let kb = registration::kilobytes(bytes) as int;
            &&& kb < u32::MAX ==> (kb - 1) * 1024 < bytes <= kb * 1024
            &&& kb == u32::MAX ==> bytes > (u32::MAX - 1) * 1024
        }),
{
}

/// The parts of a version are the numbers between its dots; one that is no
/// number, or is not there, counts as nought.
pub proof fn lemma_the_parts_of_a_version(part: Seq<char>, rest: Seq<char>, i: int)
    requires
        !part.contains('.'),
        i >= 0,
    ensures
        ({
            let number = match text::spells_u32(part) {
                Some(n) => n,
                None => 0,
            };
            &&& registration::version_part(part, 0) == number
            &&& registration::version_part(part, i + 1) == 0
            &&& registration::version_part(part + seq!['.'] + rest, 0) == number
            &&& registration::version_part(part + seq!['.'] + rest, i + 1)
                == registration::version_part(rest, i)
        }),
{
    text::lemma_split_single(part, '.');
    text::lemma_split_concat(part, rest, '.');
    let whole = text::split(part + seq!['.'] + rest, '.');
    assert(whole[0] == part);
    if i < text::split(rest, '.').len() {
        assert(whole[i + 1] == text::split(rest, '.')[i]);
    }
}

/// The registry holds the values of the integrations that are on, and of no
/// other.
pub proof fn lemma_only_what_is_on_is_written(items: Seq<IntegrationView>, x: DesiredValueView)
    ensures
        integration::enabled_values(items).contains(x) <==> exists|i: int|
            0 <= i < items.len() && (#[trigger] items[i]).enabled && items[i].values.contains(x),
    decreases items.len(),
{
    if items.len() > 0 {
        let before = items.drop_last();
        let n = items.len() - 1;
        let own = if items.last().enabled {
            items.last().values
        } else {
            Seq::<DesiredValueView>::empty()
        };
        lemma_only_what_is_on_is_written(before, x);
        lemma_says_concat(integration::enabled_values(before), own, x);
        if integration::enabled_values(before).contains(x) {
            let i = choose|i: int|
                0 <= i < before.len() && (#[trigger] before[i]).enabled && before[
                    i
                ].values.contains(x);
            assert(items[i] == before[i]);
        }
        if own.contains(x) {
            assert(items[n].enabled && items[n].values.contains(x));
        }
        if exists|i: int|
            0 <= i < items.len() && (#[trigger] items[i]).enabled && items[i].values.contains(x) {
            let i = choose|i: int|
                0 <= i < items.len() && (#[trigger] items[i]).enabled && items[i].values.contains(
                    x,
                );
            if i < n {
                assert(before[i] == items[i]);
            }
        }
    }
}

/// The command line of a handler: the program in quotes, and its arguments or
/// the text that stands for what is opened.
pub open spec fn run_line(
    program: Seq<char>,
    arguments: Seq<char>,
    default: Seq<char>,
) -> Seq<char> {
    "\""@ + program + "\" "@ + (if arguments.len() == 0 {
        default
    } else {
        arguments
    })
}

/// What a class says of the program that handles it.
pub open spec fn handles(
    values: Seq<DesiredValueView>,
    class: KeyView,
    description: Seq<char>,
    icon: Seq<char>,
    command: Seq<char>,
) -> bool {
    &&& says(values, class, ""@, DataView::String(description))
    &&& says(values, class.child("DefaultIcon"@), ""@, DataView::String(icon + ",0"@))
    &&& says(values, class.child("shell\\open\\command"@), ""@, DataView::String(command))
}

proof fn lemma_handler_handles(
    software: KeyView,
    id: Seq<char>,
    description: Seq<char>,
    icon: Seq<char>,
    command: Seq<char>,
    url: bool,
)
    ensures
        handles(
            integration::handler(software, id, description, icon, command, url),
            software.child("Classes\\"@ + id),
            description,
            icon,
            command,
        ),
        url ==> says(
            integration::handler(software, id, description, icon, command, url),
            software.child("Classes\\"@ + id),
            "URL Protocol"@,
            DataView::String(""@),
        ),
{
    let v = integration::handler(software, id, description, icon, command, url);
    let class = software.child("Classes\\"@ + id);
    let n: int = if url {
        2
    } else {
        1
    };
    assert(v[0] == integration::string_value(class, ""@, description));
    assert(v[n] == integration::string_value(class.child("DefaultIcon"@), ""@, icon + ",0"@));
    assert(v[n + 1] == integration::string_value(
        class.child("shell\\open\\command"@),
        ""@,
        command,
    ));
    if url {
        assert(v[1] == integration::string_value(class, "URL Protocol"@, ""@));
    }
}

proof fn lemma_handles_more(
    a: Seq<DesiredValueView>,
    b: Seq<DesiredValueView>,
    class: KeyView,
    description: Seq<char>,
    icon: Seq<char>,
    command: Seq<char>,
)
    requires
        handles(a, class, description, icon, command) || handles(
            b,
            class,
            description,
            icon,
            command,
        ),
    ensures
        handles(a + b, class, description, icon, command),
{
    lemma_says_concat(a, b, integration::string_value(class, ""@, description));
    lemma_says_concat(
        a,
        b,
        integration::string_value(class.child("DefaultIcon"@), ""@, icon + ",0"@),
    );
    lemma_says_concat(
        a,
        b,
        integration::string_value(class.child("shell\\open\\command"@), ""@, command),
    );
}

proof fn lemma_every_extension(
    extensions: Seq<String>,
    id: Seq<char>,
    software: KeyView,
    capabilities: KeyView,
    i: int,
)
    requires
        0 <= i < extensions.len(),
    ensures
        says(
            integration::extension_values(extensions, id, software, capabilities),
            software.child("Classes\\"@ + extensions[i]@ + "\\OpenWithProgids"@),
            id,
            DataView::String(""@),
        ),
        says(
            integration::extension_values(extensions, id, software, capabilities),
            capabilities.child("FileAssociations"@),
            extensions[i]@,
            DataView::String(id),
        ),
    decreases extensions.len(),
{
    let before = extensions.drop_last();
    let a = integration::extension_values(before, id, software, capabilities);
    let e = extensions[i]@;
    let x = integration::string_value(
        software.child("Classes\\"@ + e + "\\OpenWithProgids"@),
        id,
        ""@,
    );
    let y = integration::string_value(capabilities.child("FileAssociations"@), e, id);
    let last = extensions.last()@;
    let b = seq![
        integration::string_value(
            software.child("Classes\\"@ + last + "\\OpenWithProgids"@),
            id,
            ""@,
        ),
        integration::string_value(capabilities.child("FileAssociations"@), last, id),
    ];
    if i < before.len() {
        assert(before[i] == extensions[i]);
        lemma_every_extension(before, id, software, capabilities, i);
    } else {
        assert(b[0] == x && b[1] == y);
    }
    lemma_says_concat(a, b, x);
    lemma_says_concat(a, b, y);
}

/// A file association that is on: its class tells what it is and runs the
/// declared program, each extension offers the class, and the package's
/// capabilities name it for the extension. One that is off writes nothing.
pub proof fn lemma_a_file_association(
    a: FileAssociation,
    m: Metadata,
    options: Map<Seq<char>, OptionView>,
    software: KeyView,
    root: Seq<char>,
)
    requires
        integration::association_step(a, m, options, software, root) is Ok,
    ensures
        ({
            let (items, findings) = integration::association_step(
                a,
                m,
                options,
                software,
                root,
            )->Ok_0;
            let program = target::placed_at(root, text::replaced(a.executable@, '/', '\\'));
            let icon = if a.icon@.len() == 0 {
                program
            } else {
                target::placed_at(root, text::replaced(a.icon@, '/', '\\'))
            };
            let v = items[0].values;
            &&& items.len() == 1
            &&& findings.len() == 0
            &&& items[0].kind == "file_association"@
            &&& items[0].id == a.prog_id@
            &&& items[0].enabled <==> declared::met(a.when, options)
            &&& !items[0].enabled ==> v.len() == 0
            &&& items[0].enabled ==> {
                &&& program is Ok
                &&& icon is Ok
                &&& handles(
                    v,
                    software.child("Classes\\"@ + a.prog_id@),
                    a.description@,
                    icon->Ok_0,
                    run_line(program->Ok_0, a.arguments@, "\"%1\""@),
                )
                &&& forall|i: int|
                    0 <= i < a.extensions@.len() ==> says(
                        v,
                        software.child(
                            "Classes\\"@ + (#[trigger] a.extensions@[i])@ + "\\OpenWithProgids"@,
                        ),
                        a.prog_id@,
                        DataView::String(""@),
                    ) && says(
                        v,
                        integration::capabilities_root(m, software).child("FileAssociations"@),
                        a.extensions@[i]@,
                        DataView::String(a.prog_id@),
                    )
            }
        }),
{
    reveal_strlit("");
    declared::lemma_when_a_resource_is_wanted(a.when, ""@, options);
    let on = crate::resource::predicate::wanted(a.when, ""@, options);
    if on {
        let program = target::placed_at(root, text::replaced(a.executable@, '/', '\\'))->Ok_0;
        let icon = if a.icon@.len() == 0 {
            program
        } else {
            target::placed_at(root, text::replaced(a.icon@, '/', '\\'))->Ok_0
        };
        let run = run_line(program, a.arguments@, "\"%1\""@);
        let caps = integration::capabilities_root(m, software);
        let x = integration::handler(software, a.prog_id@, a.description@, icon, run, false);
        let y = integration::extension_values(a.extensions@, a.prog_id@, software, caps);
        lemma_handler_handles(software, a.prog_id@, a.description@, icon, run, false);
        lemma_handles_more(
            x,
            y,
            software.child("Classes\\"@ + a.prog_id@),
            a.description@,
            icon,
            run,
        );
        assert forall|i: int| 0 <= i < a.extensions@.len() implies says(
            x + y,
            software.child("Classes\\"@ + (#[trigger] a.extensions@[i])@ + "\\OpenWithProgids"@),
            a.prog_id@,
            DataView::String(""@),
        ) && says(
            x + y,
            caps.child("FileAssociations"@),
            a.extensions@[i]@,
            DataView::String(a.prog_id@),
        ) by {
            lemma_every_extension(a.extensions@, a.prog_id@, software, caps, i);
            lemma_says_concat(
                x,
                y,
                integration::string_value(
                    software.child("Classes\\"@ + a.extensions@[i]@ + "\\OpenWithProgids"@),
                    a.prog_id@,
                    ""@,
                ),
            );
            lemma_says_concat(
                x,
                y,
                integration::string_value(
                    caps.child("FileAssociations"@),
                    a.extensions@[i]@,
                    a.prog_id@,
                ),
            );
        }
    }
}

/// A URL protocol that is on: its class runs the declared program, and the
/// package's capabilities name the class for the scheme. The scheme itself is
/// taken unless it is somebody else's, which is reported. One that is off
/// writes nothing.
pub proof fn lemma_a_url_protocol(
    p: UrlProtocol,
    m: Metadata,
    options: Map<Seq<char>, OptionView>,
    software: KeyView,
    root: Seq<char>,
    machine: Machine,
    owned: Owned,
)
    requires
        integration::protocol_step(p, m, options, software, root, machine, owned) is Ok,
    ensures
        ({
            let (items, findings) = integration::protocol_step(
                p,
                m,
                options,
                software,
                root,
                machine,
                owned,
            )->Ok_0;
            let program = target::placed_at(root, text::replaced(p.executable@, '/', '\\'));
            let icon = if p.icon@.len() == 0 {
                program
            } else {
                target::placed_at(root, text::replaced(p.icon@, '/', '\\'))
            };
            let id = integration::protocol_prog_id(p, m);
            let what = "URL:"@ + (if p.description@.len() == 0 {
                p.scheme@
            } else {
                p.description@
            });
            let scheme = software.child("Classes\\"@ + p.scheme@);
            let taken = machine.has_key(scheme) && forall|i: int|
                0 <= i < owned.registry_keys@.len() ==> !((
                #[trigger] owned.registry_keys@[i]).created && text::lower(
                    owned.registry_keys@[i].key@,
                ) == text::lower(scheme.text()));
            let v = items[0].values;
            &&& items.len() == 1
            &&& items[0].kind == "url_protocol"@
            &&& items[0].id == p.scheme@
            &&& items[0].enabled <==> declared::met(p.when, options)
            &&& !items[0].enabled ==> v.len() == 0 && findings.len() == 0
            &&& items[0].enabled ==> {
                let run = run_line(program->Ok_0, p.arguments@, "\"%1\""@);
                &&& program is Ok
                &&& icon is Ok
                &&& handles(v, software.child("Classes\\"@ + id), what, icon->Ok_0, run)
                &&& says(
                    v,
                    integration::capabilities_root(m, software).child("URLAssociations"@),
                    p.scheme@,
                    DataView::String(id),
                )
                &&& !taken ==> handles(v, scheme, what, icon->Ok_0, run) && findings.len() == 0
                &&& !taken ==> v.len() == 9
                &&& taken ==> v.len() == 5 && findings == seq![
                    report::finding("url_protocol_scheme_in_use_preserved"@, scheme.text()),
                ]
            }
        }),
{
    reveal_strlit("");
    declared::lemma_when_a_resource_is_wanted(p.when, ""@, options);
    let on = crate::resource::predicate::wanted(p.when, ""@, options);
    if on {
        let program = target::placed_at(root, text::replaced(p.executable@, '/', '\\'))->Ok_0;
        let icon = if p.icon@.len() == 0 {
            program
        } else {
            target::placed_at(root, text::replaced(p.icon@, '/', '\\'))->Ok_0
        };
        let id = integration::protocol_prog_id(p, m);
        let what = "URL:"@ + (if p.description@.len() == 0 {
            p.scheme@
        } else {
            p.description@
        });
        let run = run_line(program, p.arguments@, "\"%1\""@);
        let scheme = software.child("Classes\\"@ + p.scheme@);
        let named = integration::string_value(
            integration::capabilities_root(m, software).child("URLAssociations"@),
            p.scheme@,
            id,
        );
        let a = integration::handler(software, id, what, icon, run, true);
        let own = a + seq![named];
        let b = integration::handler(software, p.scheme@, what, icon, run, true);
        lemma_handler_handles(software, id, what, icon, run, true);
        lemma_handler_handles(software, p.scheme@, what, icon, run, true);
        lemma_handles_more(a, seq![named], software.child("Classes\\"@ + id), what, icon, run);
        lemma_handles_more(own, b, software.child("Classes\\"@ + id), what, icon, run);
        lemma_handles_more(own, b, scheme, what, icon, run);
        assert(own[a.len() as int] == named);
        lemma_says_concat(own, b, named);
        let q = integration::created_key(scheme.text());
        lists::lemma_first_fits(owned.registry_keys@, q);
        if lists::first(owned.registry_keys@, q) is Some {
            let k = lists::first(owned.registry_keys@, q)->Some_0;
            let i = choose|i: int|
                0 <= i < owned.registry_keys@.len() && owned.registry_keys@[i] == k;
            assert(owned.registry_keys@[i].created);
        } else {
            assert forall|i: int| 0 <= i < owned.registry_keys@.len() implies !((
            #[trigger] owned.registry_keys@[i]).created && text::lower(
                owned.registry_keys@[i].key@,
            ) == text::lower(scheme.text())) by {
                assert(!q(owned.registry_keys@[i]));
            }
        }
    }
}

/// An application path that is on names the program under its file name, and
/// its directory where that is declared; one that is off writes nothing.
pub proof fn lemma_an_app_path(
    a: AppPath,
    options: Map<Seq<char>, OptionView>,
    software: KeyView,
    root: Seq<char>,
)
    ensures
        ({
            let r = integration::app_path_step(a, options, software, root);
            let program = target::placed_at(root, text::replaced(a.executable@, '/', '\\'));
            let file = target::file_name(program->Ok_0);
            let key = software.child("Microsoft\\Windows\\CurrentVersion\\App Paths\\"@ + file);
            let folder = match target::parent_folder(program->Ok_0) {
                Some(f) => f,
                None => Seq::<char>::empty(),
            };
            &&& r is Ok <==> program is Ok && file.len() > 0
            &&& r is Ok ==> {
                let (items, findings) = r->Ok_0;
                let v = items[0].values;
                &&& items.len() == 1
                &&& findings.len() == 0
                &&& items[0].kind == "app_path"@
                &&& items[0].id == file
                &&& items[0].enabled <==> declared::met(a.when, options)
                &&& !items[0].enabled ==> v.len() == 0
                &&& items[0].enabled ==> says(v, key, ""@, DataView::String(program->Ok_0))
                &&& items[0].enabled && a.add_directory ==> v.len() == 2 && says(
                    v,
                    key,
                    "Path"@,
                    DataView::String(folder),
                )
                &&& items[0].enabled && !a.add_directory ==> v.len() == 1
            }
        }),
{
    reveal_strlit("");
    declared::lemma_when_a_resource_is_wanted(a.when, ""@, options);
    let r = integration::app_path_step(a, options, software, root);
    if r is Ok && r->Ok_0.0[0].enabled {
        let v = r->Ok_0.0[0].values;
        assert(v.contains(v[0]));
        if a.add_directory {
            assert(v.contains(v[1]));
        }
    }
}

/// What a context menu says at a class.
pub open spec fn offers(
    values: Seq<DesiredValueView>,
    key: KeyView,
    label: Seq<char>,
    icon: Option<Seq<char>>,
    command: Seq<char>,
) -> bool {
    &&& says(values, key, ""@, DataView::String(label))
    &&& says(values, key.child("command"@), ""@, DataView::String(command))
    &&& icon is Some ==> says(values, key, "Icon"@, DataView::String(icon->Some_0))
}

proof fn lemma_every_class_offers(
    verb: ContextMenuVerb,
    classes: Seq<Seq<char>>,
    software: KeyView,
    icon: Option<Seq<char>>,
    run: Seq<char>,
    i: int,
)
    requires
        0 <= i < classes.len(),
    ensures
        offers(
            integration::classes_values(verb, classes, software, icon, run),
            software.child("Classes\\"@ + classes[i] + "\\shell\\"@ + verb.verb@),
            verb.label@,
            icon,
            run,
        ),
    decreases classes.len(),
{
    let before = classes.drop_last();
    let a = integration::classes_values(verb, before, software, icon, run);
    let b = integration::class_values(verb, classes.last(), software, icon, run);
    let key = software.child("Classes\\"@ + classes[i] + "\\shell\\"@ + verb.verb@);
    let x = integration::string_value(key, ""@, verb.label@);
    let y = integration::string_value(key.child("command"@), ""@, run);
    if i < before.len() {
        assert(before[i] == classes[i]);
        lemma_every_class_offers(verb, before, software, icon, run, i);
    } else {
        assert(b[0] == x);
        assert(b[b.len() - 1] == y);
        if icon is Some {
            assert(b[1] == integration::string_value(key, "Icon"@, icon->Some_0));
        }
    }
    lemma_says_concat(a, b, x);
    lemma_says_concat(a, b, y);
    if icon is Some {
        lemma_says_concat(a, b, integration::string_value(key, "Icon"@, icon->Some_0));
    }
}

/// Whether a context menu entry belongs at a class: folders, the background of
/// a folder, every file, or the files of each declared extension.
pub open spec fn belongs(verb: ContextMenuVerb, class: Seq<char>) -> bool {
    match verb.target {
        ContextMenuTarget::Directories => class == "Directory"@,
        ContextMenuTarget::DirectoryBackground => class == "Directory\\Background"@,
        ContextMenuTarget::Files => if verb.extensions@.len() == 0 {
            class == "*"@
        } else {
            exists|i: int|
                0 <= i < verb.extensions@.len() && class == "SystemFileAssociations\\"@ + (
                #[trigger] verb.extensions@[i])@
        },
    }
}

/// A context menu entry that is on shows its label, its icon where one is
/// declared, and its command at every class it belongs to; one that is off
/// writes nothing.
pub proof fn lemma_a_context_menu_verb(
    verb: ContextMenuVerb,
    options: Map<Seq<char>, OptionView>,
    software: KeyView,
    root: Seq<char>,
    class: Seq<char>,
)
    requires
        integration::verb_step(verb, options, software, root) is Ok,
    ensures
        ({
            let (items, findings) = integration::verb_step(verb, options, software, root)->Ok_0;
            let program = target::placed_at(root, text::replaced(verb.executable@, '/', '\\'));
            let icon = target::placed_at(root, text::replaced(verb.icon@, '/', '\\'));
            let default = if verb.target == ContextMenuTarget::DirectoryBackground {
                "\"%V\""@
            } else {
                "\"%1\""@
            };
            &&& items.len() == 1
            &&& findings.len() == 0
            &&& items[0].kind == "context_menu"@
            &&& items[0].enabled <==> declared::met(verb.when, options)
            &&& !items[0].enabled ==> items[0].values.len() == 0
            &&& items[0].enabled && belongs(verb, class) ==> {
                &&& program is Ok
                &&& verb.icon@.len() > 0 ==> icon is Ok
                &&& offers(
                    items[0].values,
                    software.child("Classes\\"@ + class + "\\shell\\"@ + verb.verb@),
                    verb.label@,
                    if verb.icon@.len() > 0 {
                        Some(icon->Ok_0)
                    } else {
                        None
                    },
                    run_line(program->Ok_0, verb.arguments@, default),
                )
            }
        }),
{
    reveal_strlit("");
    declared::lemma_when_a_resource_is_wanted(verb.when, ""@, options);
    let on = crate::resource::predicate::wanted(verb.when, ""@, options);
    if on && belongs(verb, class) {
        let program = target::placed_at(root, text::replaced(verb.executable@, '/', '\\'))->Ok_0;
        let icon = if verb.icon@.len() > 0 {
            Some(target::placed_at(root, text::replaced(verb.icon@, '/', '\\'))->Ok_0)
        } else {
            None
        };
        let default = if verb.target == ContextMenuTarget::DirectoryBackground {
            "\"%V\""@
        } else {
            "\"%1\""@
        };
        let run = run_line(program, verb.arguments@, default);
        let classes = integration::verb_classes(verb);
        if verb.target == ContextMenuTarget::Files && verb.extensions@.len() > 0 {
            let i = choose|i: int|
                0 <= i < verb.extensions@.len() && class == "SystemFileAssociations\\"@ + (
                #[trigger] verb.extensions@[i])@;
            assert(classes[i] == class);
            lemma_every_class_offers(verb, classes, software, icon, run, i);
        } else {
            assert(classes[0] == class);
            lemma_every_class_offers(verb, classes, software, icon, run, 0);
        }
    }
}

/// Everything that is declared to hook into the shell is compiled, on or off,
/// with what it reports; and the package's capabilities are told exactly while
/// an association or a protocol is on.
pub proof fn lemma_every_integration_is_compiled(
    m: Metadata,
    options: Map<Seq<char>, OptionView>,
    software: KeyView,
    root: Seq<char>,
    machine: Machine,
    owned: Owned,
    i: int,
)
    requires
        integration::compiled(m, options, software, root, machine, owned) is Ok,
    ensures
        ({
            let (items, findings) = integration::compiled(
                m,
                options,
                software,
                root,
                machine,
                owned,
            )->Ok_0;
            &&& 0 <= i < m.file_associations@.len() ==> {
                let r = integration::association_step(
                    m.file_associations@[i],
                    m,
                    options,
                    software,
                    root,
                );
                r is Ok && lists::within(r->Ok_0.0, items)
            }
            &&& 0 <= i < m.url_protocols@.len() ==> {
                let r = integration::protocol_step(
                    m.url_protocols@[i],
                    m,
                    options,
                    software,
                    root,
                    machine,
                    owned,
                );
                r is Ok && lists::within(r->Ok_0.0, items) && lists::within(r->Ok_0.1, findings)
            }
            &&& 0 <= i < m.app_paths@.len() ==> {
                let r = integration::app_path_step(m.app_paths@[i], options, software, root);
                r is Ok && lists::within(r->Ok_0.0, items)
            }
            &&& 0 <= i < m.context_menu_verbs@.len() ==> {
                let r = integration::verb_step(m.context_menu_verbs@[i], options, software, root);
                r is Ok && lists::within(r->Ok_0.0, items)
            }
        }),
{
    let steps = integration::integration_steps(m, options, software, root, machine, owned);
    let items = integration::compiled(m, options, software, root, machine, owned)->Ok_0.0;
    let gathered = lists::gathered(steps)->Ok_0.0;
    let a = m.file_associations@.len();
    let b = a + m.url_protocols@.len();
    let c = b + m.app_paths@.len();
    assert forall|part: Seq<IntegrationView>| #[trigger] lists::within(
        part,
        gathered,
    ) implies lists::within(part, items) by {
        assert forall|k: int| 0 <= k < part.len() implies items.contains(#[trigger] part[k]) by {
            assert(gathered.contains(part[k]));
            let n = choose|n: int| 0 <= n < gathered.len() && gathered[n] == part[k];
            assert(items[n] == part[k]);
        }
    }
    if 0 <= i < m.file_associations@.len() {
        lists::lemma_gathering_keeps(steps, i);
    }
    if 0 <= i < m.url_protocols@.len() {
        lists::lemma_gathering_keeps(steps, a + i);
    }
    if 0 <= i < m.app_paths@.len() {
        lists::lemma_gathering_keeps(steps, b + i);
    }
    if 0 <= i < m.context_menu_verbs@.len() {
        lists::lemma_gathering_keeps(steps, c + i);
    }
}

/// The package's capabilities are told exactly while an association or a
/// protocol is on.
pub proof fn lemma_when_capabilities_are_told(
    m: Metadata,
    options: Map<Seq<char>, OptionView>,
    software: KeyView,
    root: Seq<char>,
    machine: Machine,
    owned: Owned,
)
    requires
        integration::compiled(m, options, software, root, machine, owned) is Ok,
    ensures
        ({
            let items = integration::compiled(m, options, software, root, machine, owned)->Ok_0.0;
            let declared = m.file_associations@.len() + m.url_protocols@.len()
                + m.app_paths@.len() + m.context_menu_verbs@.len();
            let on = {
                ||| exists|i: int|
                    0 <= i < m.file_associations@.len() && declared::met(
                        (#[trigger] m.file_associations@[i]).when,
                        options,
                    )
                ||| exists|i: int|
                    0 <= i < m.url_protocols@.len() && declared::met(
                        (#[trigger] m.url_protocols@[i]).when,
                        options,
                    )
            };
            &&& on <==> integration::is_capable(m, options)
            &&& on ==> items.len() > 0 && items.last().kind == "capabilities"@
                && items.last().enabled && says(
                items.last().values,
                software.child(
                    text::replaced(m.package.publisher@, '\\', '-') + "\\"@ + text::replaced(
                        m.package.name@,
                        '\\',
                        '-',
                    ) + "\\Capabilities"@,
                ),
                "ApplicationName"@,
                DataView::String(m.package.name@),
            )
        }),
{
    reveal_strlit("");
    let p = integration::association_on(options);
    let q = integration::protocol_on(options);
    lists::lemma_first_fits(m.file_associations@, p);
    lists::lemma_first_fits(m.url_protocols@, q);
    assert forall|i: int| 0 <= i < m.file_associations@.len() implies (p(
        #[trigger] m.file_associations@[i],
    ) <==> declared::met(m.file_associations@[i].when, options)) by {
        declared::lemma_when_a_resource_is_wanted(m.file_associations@[i].when, ""@, options);
    }
    assert forall|i: int| 0 <= i < m.url_protocols@.len() implies (q(
        #[trigger] m.url_protocols@[i],
    ) <==> declared::met(m.url_protocols@[i].when, options)) by {
        declared::lemma_when_a_resource_is_wanted(m.url_protocols@[i].when, ""@, options);
    }
    if lists::first(m.file_associations@, p) is Some {
        let x = lists::first(m.file_associations@, p)->Some_0;
        let i = choose|i: int| 0 <= i < m.file_associations@.len() && m.file_associations@[i] == x;
        assert(p(m.file_associations@[i]));
    }
    if lists::first(m.url_protocols@, q) is Some {
        let x = lists::first(m.url_protocols@, q)->Some_0;
        let i = choose|i: int| 0 <= i < m.url_protocols@.len() && m.url_protocols@[i] == x;
        assert(q(m.url_protocols@[i]));
    }
    if integration::is_capable(m, options) {
        let caps = integration::capabilities(m, software);
        assert(caps.contains(caps[0]));
    }
}

}
