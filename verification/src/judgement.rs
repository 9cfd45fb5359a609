//! When an identity counts as cloakroom's own, and what `status` and `doctor`
//! say of it, over the values and the places that git reported.

use vstd::prelude::*;
use vstd::utf8::{
    decode_utf8, decode_utf8_encode_utf8, encode_utf8, encode_utf8_decode_utf8,
    encode_utf8_valid_utf8,
};

use crate::acceptance::listed_if;
use crate::app::{genuine, next_turn};
use crate::cli::Command;
use crate::config::ConfigView;
use crate::doctor::{completed, with_expected, with_identity, with_unset, with_value};
use crate::file_path::{names, SEPARATOR};
use crate::git::{resolved_paths, GitOutput, ResolvedPath, ResolvedPathView};
use crate::identity::{reported_identity, EntryView, IdentityView};
use crate::order::ascending;
use crate::paths::{objects_dir, LayoutView};
use crate::profiles::ProfileView;
use crate::run_status::RunStatus;
use crate::sorted_map::{keys, lemma_every_entry_is_found, lemma_lookup_none};
use crate::status::{
    digest_like, generated_object, hex_digit, identity_report, one_source, profile_lines,
    ReportView,
};
use crate::text::debug_text;
use crate::turn::{ActionView, CheckupView, Event, StageView, TurnView, WantedView};

verus! {

////////////////////////////////////////////////////////////////////////////
// Where values come from

/// Whether two paths start alike and lead through the same names.
pub open spec fn same_place(left: Seq<u8>, right: Seq<u8>) -> bool {
    &&& (left.len() > 0 && left[0] == SEPARATOR) == (right.len() > 0 && right[0] == SEPARATOR)
    &&& names(left) == names(right)
}

/// Whether two values come from one place: the same scope, and one file or
/// both none.
pub open spec fn together(left: EntryView, right: EntryView) -> bool {
    &&& left.scope == right.scope
    &&& match (left.origin, right.origin) {
        (Some(a), Some(b)) => same_place(encode_utf8(a), encode_utf8(b)),
        (None, None) => true,
        _ => false,
    }
}

/// Two values count as coming from one source exactly if they come from one
/// place.
pub proof fn law_one_source_is_one_place(left: EntryView, right: EntryView)
    ensures
        one_source(left, right) <==> together(left, right),
{
}

/// Whether a path is that of a file directly inside a directory that is named
/// by 64 hexadecimal digits and `.gitconfig`.
pub open spec fn object_inside(path: Seq<u8>, directory: Seq<u8>) -> bool {
    exists|digest: Seq<char>|
        #![trigger encode_utf8(digest + ".gitconfig"@)]
        {
            &&& digest.len() == 64
            &&& forall|i: int|
                0 <= i < 64 ==> {
                    let code = (#[trigger] digest[i]) as int;
                    48 <= code <= 57 || 65 <= code <= 70 || 97 <= code <= 102
                }
            &&& (path.len() > 0 && path[0] == SEPARATOR) == (directory.len() > 0 && directory[0]
                == SEPARATOR)
            &&& names(path) == names(directory).push(encode_utf8(digest + ".gitconfig"@))
        }
}

/// A file is taken for a generated object exactly if it lies directly inside
/// the directory of the objects and is named by 64 hexadecimal digits and
/// `.gitconfig`.
pub proof fn law_objects_are_told_by_place_and_name(path: Seq<u8>, directory: Seq<u8>)
    ensures
        generated_object(path, directory) <==> object_inside(path, directory),
{
    if generated_object(path, directory) {
        let name = names(path).last();
        let text = decode_utf8(name);
        let digest = text.take(text.len() - ".gitconfig"@.len());
        assert(text == digest + ".gitconfig"@);
        decode_utf8_encode_utf8(name);
        assert(encode_utf8(digest + ".gitconfig"@) == name);
        assert(digest_like(digest));
        assert forall|i: int| 0 <= i < 64 implies {
            let code = (#[trigger] digest[i]) as int;
            48 <= code <= 57 || 65 <= code <= 70 || 97 <= code <= 102
        } by {
            assert(hex_digit(digest[i]));
        }
        assert(names(path) == names(directory).push(encode_utf8(digest + ".gitconfig"@)));
    }
    if object_inside(path, directory) {
        let digest = choose|digest: Seq<char>|
            #![trigger encode_utf8(digest + ".gitconfig"@)]
            {
                &&& digest.len() == 64
                &&& forall|i: int|
                    0 <= i < 64 ==> {
                        let code = (#[trigger] digest[i]) as int;
                        48 <= code <= 57 || 65 <= code <= 70 || 97 <= code <= 102
                    }
                &&& (path.len() > 0 && path[0] == SEPARATOR) == (directory.len() > 0
                    && directory[0] == SEPARATOR)
                &&& names(path) == names(directory).push(encode_utf8(digest + ".gitconfig"@))
            };
        let text = digest + ".gitconfig"@;
        encode_utf8_valid_utf8(text);
        encode_utf8_decode_utf8(text);
        assert(names(path).drop_last() == names(directory));
        assert(names(path).last() == encode_utf8(text));
        assert(".gitconfig"@.is_suffix_of(text));
        assert(text.take(text.len() - ".gitconfig"@.len()) == digest);
        assert forall|i: int| 0 <= i < digest.len() implies hex_digit(#[trigger] digest[i]) by {}
        assert(digest_like(digest));
    }
}

/// Whether what a marker's origin and the directory of the objects resolve to
/// show that the marker is one of cloakroom's.
pub open spec fn proven(
    identity: IdentityView,
    paths: Seq<ResolvedPathView>,
    target: ResolvedPathView,
) -> bool {
    &&& identity.profile is Some
    &&& (identity.profile->0).origin is Some
    &&& paths.len() > 0
    &&& paths[0].resolved is Some
    &&& target.resolved is Some
    &&& object_inside(paths[0].resolved->0, target.resolved->0)
}

/// A marker counts as genuine exactly if it comes from a file, and that file
/// and the directory of the objects resolve to an object and the directory it
/// lies in. What cannot be resolved proves nothing, and neither does any other
/// file.
pub proof fn law_only_objects_make_markers_genuine(
    identity: IdentityView,
    paths: Seq<ResolvedPathView>,
    target: ResolvedPathView,
)
    ensures
        genuine(identity, paths, target) <==> proven(identity, paths, target),
{
    if paths.len() > 0 && paths[0].resolved is Some && target.resolved is Some {
        law_objects_are_told_by_place_and_name(paths[0].resolved->0, target.resolved->0);
    }
}

////////////////////////////////////////////////////////////////////////////
// Status

/// Whether cloakroom supplied a value: it is set, the marker is genuine, and
/// both come from one place.
pub open spec fn from_cloakroom(
    value: Option<EntryView>,
    marker: EntryView,
    marker_is_genuine: bool,
) -> bool {
    value is Some && marker_is_genuine && together(value->0, marker)
}

/// How a report names the place of a value.
pub open spec fn place(entry: EntryView) -> Seq<char> {
    match entry.origin {
        Some(path) => path,
        None => "a non-file origin"@,
    }
}

/// The report of `status`: first the repository, then the identity, then the
/// profile. The profile counts as selected by cloakroom exactly if name and
/// email are set and come from where the marker does, and the marker is
/// genuine; otherwise the identity is said to be overridden, and each value
/// that is set and not cloakroom's is named with its place.
pub proof fn law_status_says_whose_identity_it_is(
    toplevel: Option<Seq<char>>,
    identity: IdentityView,
    marker_is_genuine: bool,
)
    ensures
        ({
            let report = identity_report(toplevel, identity, marker_is_genuine);
            let name = identity.name;
            let email = identity.email;
            &&& report.lines[0] == match toplevel {
                Some(root) => "repository: "@ + root,
                None => "repository: none (not inside a git repository; showing the fall-through identity)"@,
            }
            &&& report.lines[1] == (if name is Some && email is Some {
                "identity:   "@ + (name->0).value + " <"@ + (email->0).value + ">"@
            } else if name is Some {
                "identity:   "@ + (name->0).value + " (user.email is not set)"@
            } else if email is Some {
                "identity:   <"@ + (email->0).value + "> (user.name is not set)"@
            } else {
                "identity:   none (git resolves no user.name or user.email)"@
            })
            &&& match identity.profile {
                Some(marker) => {
                    let named = from_cloakroom(name, marker, marker_is_genuine);
                    let mailed = from_cloakroom(email, marker, marker_is_genuine);
                    report.lines.skip(2) == (if named && mailed {
                        seq!["profile:    "@ + marker.value + " (selected by cloakroom)"@]
                    } else {
                        seq![
                            "profile:    "@ + marker.value
                                + " selected, but the identity is overridden"@,
                        ] + listed_if(
                            name is Some && !named,
                            "name from:  "@ + place(name->0) + " (scope "@ + (name->0).scope
                                + ")"@,
                        ) + listed_if(
                            email is Some && !mailed,
                            "email from: "@ + place(email->0) + " (scope "@ + (email->0).scope
                                + ")"@,
                        )
                    })
                },
                None => report.lines.skip(2) == seq![
                    if email is Some {
                        "profile:    none (identity from "@ + place(email->0) + ", scope "@
                            + (email->0).scope + ")"@
                    } else if name is Some {
                        "profile:    none (identity from "@ + place(name->0) + ", scope "@
                            + (name->0).scope + ")"@
                    } else {
                        "profile:    none"@
                    },
                ],
            }
            &&& report.status == (if name is Some && email is Some && (identity.profile is None || (
            from_cloakroom(name, identity.profile->0, marker_is_genuine) && from_cloakroom(
                email,
                identity.profile->0,
                marker_is_genuine,
            ))) {
                RunStatus::Clean
            } else {
                RunStatus::Issues
            })
        }),
{
    let report = identity_report(toplevel, identity, marker_is_genuine);
    if let Some(marker) = identity.profile {
        if identity.name is Some {
            law_one_source_is_one_place(identity.name->0, marker);
        }
        if identity.email is Some {
            law_one_source_is_one_place(identity.email->0, marker);
        }
    }
    assert(report.lines.skip(2) =~= profile_lines(identity, marker_is_genuine));
}

/// Whether a turn prints these lines to the output and ends the run.
pub open spec fn prints(turn: TurnView, report: ReportView) -> bool {
    &&& turn.action == ActionView::Finish(report.status)
    &&& turn.stage is Finished
    &&& turn.lines.len() == report.lines.len()
    &&& forall|i: int|
        0 <= i < turn.lines.len() ==> (#[trigger] turn.lines[i]).text == report.lines[i]
            && !turn.lines[i].error
}

/// A run of `status` believes a marker only for where it comes from: without a
/// file there is nothing to ask, and otherwise the file and the directory of
/// the objects are resolved, and the report goes by whether they prove the
/// marker genuine.
pub proof fn law_status_traces_the_marker(
    layout: LayoutView,
    toplevel: Option<Seq<char>>,
    identity: IdentityView,
    output: GitOutput,
    paths: Vec<ResolvedPath>,
    target: ResolvedPath,
)
    ensures
        reported_identity(output) == Ok::<IdentityView, Seq<char>>(identity) ==> ({
            let next = next_turn(
                Command::Status,
                layout,
                StageView::Identifying(toplevel),
                Event::Ran(output),
            );
            if identity.profile is Some && (identity.profile->0).origin is Some {
                &&& next.stage == StageView::Tracing { toplevel, identity }
                &&& next.lines.len() == 0
                &&& next.action == (ActionView::Resolve {
                    paths: seq![encode_utf8((identity.profile->0).origin->0)],
                    target: objects_dir(layout.config_dir),
                })
            } else {
                prints(next, identity_report(toplevel, identity, false))
            }
        }),
        prints(
            next_turn(
                Command::Status,
                layout,
                StageView::Tracing { toplevel, identity },
                Event::Resolved { paths, target },
            ),
            identity_report(
                toplevel,
                identity,
                proven(identity, resolved_paths(paths@), target@),
            ),
        ),
{
    law_only_objects_make_markers_genuine(identity, resolved_paths(paths@), target@);
}

/// Where a marker does not come from an object, `status` ends with issues and
/// says that the identity is overridden, whatever the marker claims.
pub proof fn law_a_claimed_marker_is_no_identity(
    layout: LayoutView,
    toplevel: Option<Seq<char>>,
    identity: IdentityView,
    paths: Vec<ResolvedPath>,
    target: ResolvedPath,
)
    requires
        identity.profile is Some,
        !proven(identity, resolved_paths(paths@), target@),
    ensures
        ({
            let next = next_turn(
                Command::Status,
                layout,
                StageView::Tracing { toplevel, identity },
                Event::Resolved { paths, target },
            );
            &&& next.action == ActionView::Finish(RunStatus::Issues)
            &&& next.lines.len() >= 3
            &&& next.lines[2].text == "profile:    "@ + (identity.profile->0).value
                + " selected, but the identity is overridden"@
        }),
{
    law_only_objects_make_markers_genuine(identity, resolved_paths(paths@), target@);
}

////////////////////////////////////////////////////////////////////////////
// Doctor

/// The line that a value of `key` is not what the profile sets.
pub open spec fn disagreement(
    key: Seq<char>,
    entry: EntryView,
    expected: Seq<char>,
    marker: EntryView,
) -> Seq<char> {
    "issue: "@ + (key + " is "@ + debug_text(entry.value) + " from "@ + place(entry) + " (scope "@
        + entry.scope + "), but cloakroom profile "@ + marker.value + " sets "@ + debug_text(
        expected,
    ) + (if together(entry, marker) {
        "; run cloakroom apply"@
    } else {
        match entry.origin {
            Some(path) => "; run git config --file "@ + path + " --unset-all "@ + key,
            None => "; drop it from the command line or the environment, then run cloakroom doctor"@,
        }
    }))
}

/// What doctor says of an identity whose marker is genuine and names a profile
/// of the configuration: each value that is set has to be the one that the
/// profile sets and to come from where the marker does, or there is an issue
/// line for its key. The identity is said to match exactly if both are set and
/// there is no such line.
pub proof fn law_doctor_compares_value_and_origin(
    report: ReportView,
    identity: IdentityView,
    marker: EntryView,
    expected: ProfileView,
)
    ensures
        ({
            let name = identity.name;
            let email = identity.email;
            let named = name is Some && (name->0).value == expected.name && together(
                name->0,
                marker,
            );
            let mailed = email is Some && (email->0).value == expected.email && together(
                email->0,
                marker,
            );
            with_expected(report, identity, marker, expected).lines == report.lines + listed_if(
                name is Some && !named,
                disagreement("user.name"@, name->0, expected.name, marker),
            ) + listed_if(
                email is Some && !mailed,
                disagreement("user.email"@, email->0, expected.email, marker),
            ) + listed_if(
                named && mailed,
                "ok: "@ + "the identity in this repository matches cloakroom's rules"@,
            )
        }),
{
    lemma_compared(report, "user.name"@, identity.name, expected.name, marker);
    let named = with_value(report, "user.name"@, identity.name, expected.name, marker);
    lemma_compared(named, "user.email"@, identity.email, expected.email, marker);
    if identity.name is Some {
        law_one_source_is_one_place(identity.name->0, marker);
    }
    if identity.email is Some {
        law_one_source_is_one_place(identity.email->0, marker);
    }
}

proof fn lemma_compared(
    report: ReportView,
    key: Seq<char>,
    value: Option<EntryView>,
    expected: Seq<char>,
    marker: EntryView,
)
    ensures
        with_value(report, key, value, expected, marker).lines == report.lines + listed_if(
            value is Some && !((value->0).value == expected && together(value->0, marker)),
            disagreement(key, value->0, expected, marker),
        ),
{
    if let Some(entry) = value {
        law_one_source_is_one_place(entry, marker);
    }
}

/// What doctor says of the identity in a repository: what is not set, then, if
/// there is a marker, whether it is genuine, names a profile of the
/// configuration, and goes with the identity that this profile sets. `at` is
/// where that profile stands.
pub proof fn law_doctor_examines_the_identity(
    report: ReportView,
    identity: IdentityView,
    marker_is_genuine: bool,
    config: Option<ConfigView>,
    at: int,
)
    ensures
        ({
            let unset = report.lines + listed_if(
                identity.name is None,
                "issue: "@
                    + "no user.name resolves in this repository; run git config user.name <name>"@,
            ) + listed_if(
                identity.email is None,
                "issue: "@
                    + "no user.email resolves in this repository; git will refuse to commit; run git config user.email <email>"@,
            );
            let after = with_identity(report, Some(identity), marker_is_genuine, config).lines;
            match identity.profile {
                None => after == unset + listed_if(
                    identity.name is Some && identity.email is Some,
                    "ok: "@
                        + "no cloakroom rule matches this repository; the identity comes from elsewhere"@,
                ),
                Some(marker) => {
                    &&& !marker_is_genuine ==> after == unset.push(
                        "issue: "@ + ("cloakroom profile marker "@ + debug_text(marker.value)
                            + " comes from "@ + place(marker) + " (scope "@ + marker.scope
                            + "), not a generated object"@ + match marker.origin {
                            Some(path) => "; run git config --file "@ + path + " --unset-all "@
                                + "cloakroom.profile"@,
                            None => "; drop it from the command line or the environment, then run cloakroom doctor"@,
                        }),
                    )
                    &&& marker_is_genuine && config is None ==> after == unset
                    &&& marker_is_genuine && config is Some && (forall|i: int|
                        0 <= i < (config->0).profiles.len() ==> (
                        #[trigger] (config->0).profiles[i]).0 != marker.value) ==> after
                        == unset.push(
                        "issue: "@ + ("cloakroom profile marker "@ + debug_text(marker.value)
                            + " is not in config.toml; run cloakroom apply"@),
                    )
                    &&& marker_is_genuine && config is Some && ascending(
                        keys((config->0).profiles),
                    ) && 0 <= at < (config->0).profiles.len() && (config->0).profiles[at].0
                        == marker.value ==> ({
                        let expected = (config->0).profiles[at].1;
                        let name = identity.name;
                        let email = identity.email;
                        let named = name is Some && (name->0).value == expected.name && together(
                            name->0,
                            marker,
                        );
                        let mailed = email is Some && (email->0).value == expected.email
                            && together(email->0, marker);
                        after == unset + listed_if(
                            name is Some && !named,
                            disagreement("user.name"@, name->0, expected.name, marker),
                        ) + listed_if(
                            email is Some && !mailed,
                            disagreement("user.email"@, email->0, expected.email, marker),
                        ) + listed_if(
                            named && mailed,
                            "ok: "@ + "the identity in this repository matches cloakroom's rules"@,
                        )
                    })
                },
            }
        }),
{
    let unset = report.lines + listed_if(
        identity.name is None,
        "issue: "@ + "no user.name resolves in this repository; run git config user.name <name>"@,
    ) + listed_if(
        identity.email is None,
        "issue: "@
            + "no user.email resolves in this repository; git will refuse to commit; run git config user.email <email>"@,
    );
    let complete = with_unset(report, identity);
    assert(complete.lines =~= unset);
    if let Some(marker) = identity.profile {
        if marker_is_genuine && config is Some {
            let profiles = (config->0).profiles;
            if forall|i: int| 0 <= i < profiles.len() ==> (#[trigger] profiles[i]).0 != marker.value {
                lemma_lookup_none(profiles, marker.value);
            }
            if ascending(keys(profiles)) && 0 <= at < profiles.len() && profiles[at].0
                == marker.value {
                lemma_every_entry_is_found(profiles, at);
                law_doctor_compares_value_and_origin(complete, identity, marker, profiles[at].1);
            }
        }
    }
}

/// A run of doctor believes a marker only for where it comes from, as `status`
/// does.
pub proof fn law_doctor_traces_the_marker(
    layout: LayoutView,
    checkup: CheckupView,
    identity: IdentityView,
    output: GitOutput,
    paths: Vec<ResolvedPath>,
    target: ResolvedPath,
)
    ensures
        reported_identity(output) == Ok::<IdentityView, Seq<char>>(identity) ==> ({
            let next = next_turn(
                Command::Doctor,
                layout,
                StageView::Examining(WantedView::Identity, checkup),
                Event::Ran(output),
            );
            if identity.profile is Some && (identity.profile->0).origin is Some {
                &&& next.stage == StageView::Examining(WantedView::Marker(identity), checkup)
                &&& next.lines.len() == 0
                &&& next.action == (ActionView::Resolve {
                    paths: seq![encode_utf8((identity.profile->0).origin->0)],
                    target: objects_dir(layout.config_dir),
                })
            } else {
                prints(
                    next,
                    completed(
                        checkup.report,
                        layout,
                        checkup.config,
                        checkup.evidence,
                        Some(identity),
                        false,
                    ),
                )
            }
        }),
        prints(
            next_turn(
                Command::Doctor,
                layout,
                StageView::Examining(WantedView::Marker(identity), checkup),
                Event::Resolved { paths, target },
            ),
            completed(
                checkup.report,
                layout,
                checkup.config,
                checkup.evidence,
                Some(identity),
                proven(identity, resolved_paths(paths@), target@),
            ),
        ),
{
    law_only_objects_make_markers_genuine(identity, resolved_paths(paths@), target@);
}

}
