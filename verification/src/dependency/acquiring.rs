//! What holds of acquiring an installer: where it comes from, what it is
//! called, and what becomes of each answer.

use vstd::prelude::*;

use crate::dependency::acquire;
use crate::dependency::acquire::{Happened, Reason, Stage};
use crate::metadata::{Acquisition, AcquisitionSource, Dependency};
use crate::text;

verus! {

/// A hint is good for the declared number of days, to the second; without a
/// limit it is always good, and one whose time is unknown never is.
pub proof fn lemma_how_long_a_hint_is_good(a: Acquisition, now: i64)
    ensures
        a.max_age_days == 0 ==> acquire::is_fresh(a, now),
        a.max_age_days > 0 && a.resolved_at <= 0 ==> !acquire::is_fresh(a, now),
        a.max_age_days > 0 && a.resolved_at > 0 ==> (acquire::is_fresh(a, now) <==> now
            <= a.resolved_at + a.max_age_days * 24 * 60 * 60),
{
    assert(a.max_age_days * 24 * 60 * 60 == a.max_age_days * 86_400) by (nonlinear_arith);
}

/// What is done first: an embedded installer is extracted, a hint that is good
/// is followed, and the catalog is asked only for a dependency of the catalog.
pub proof fn lemma_what_is_done_first(
    stage: Stage,
    d: Dependency,
    dir: Seq<char>,
    has_payload: bool,
    now: i64,
)
    requires
        acquire::begins(stage, d, dir, has_payload, now),
    ensures
        ({
            let source = d.acquisition.source;
            let hint = d.acquisition.url@.len() > 0 && d.acquisition.sha256@.len() > 0;
            &&& stage is Extract <==> source == AcquisitionSource::Embedded && has_payload
            &&& stage is Hint <==> hint && (source == AcquisitionSource::Url || (source
                == AcquisitionSource::Winget && acquire::is_fresh(d.acquisition, now)))
            &&& stage is Resolve <==> source == AcquisitionSource::Winget && !(hint
                && acquire::is_fresh(d.acquisition, now))
            &&& stage is Hint ==> stage->url@ == d.acquisition.url@ && stage->sha256@
                == d.acquisition.sha256@ && (stage->or_catalog <==> source
                == AcquisitionSource::Winget)
            &&& stage is Resolve && d.acquisition.package_identifier@.len() > 0 ==> stage->package@
                == d.acquisition.package_identifier@
            &&& stage is Resolve && d.acquisition.package_identifier@.len() == 0 ==> stage->package@
                == d.id@
            &&& stage is Resolve && d.acquisition.architecture@.len() > 0 ==> stage->architecture@
                == d.acquisition.architecture@
            &&& !(stage is Fetch) && !(stage is Done)
        }),
{
}

/// A download is taken exactly when it has the hash that was asked for. One
/// that failed or is another is replaced by what the catalog has, where the
/// catalog may be asked and nobody cancelled.
pub proof fn lemma_what_becomes_of_a_hint(
    stage: Stage,
    happened: Happened,
    d: Dependency,
    dir: Seq<char>,
    next: Stage,
)
    requires
        stage is Hint,
        happened is Downloaded,
        acquire::follows(stage, happened, d, dir, next),
    ensures
        ({
            let got = happened->Downloaded_0;
            let good = got is Ok && got->Ok_0@ == d.acquisition.sha256@;
            let stopped = got is Err && got->Err_0.reason == Reason::Cancelled;
            &&& next is Done <==> good
            &&& next is Resolve <==> !good && stage->or_catalog && !stopped
            &&& next is Failed <==> !good && (!stage->or_catalog || stopped)
            &&& next is Failed && got is Err ==> next->Failed_0.reason == got->Err_0.reason
                && next->Failed_0.message@ == got->Err_0.message@
            &&& next is Failed && got is Ok ==> next->Failed_0.reason == Reason::HashMismatch
            &&& good ==> {
                let a = next->Done_0@;
                &&& a.path == stage->Hint_path@
                &&& a.url == d.acquisition.url@
                &&& a.sha256 == d.acquisition.sha256@
                &&& a.version == d.acquisition.version@
                &&& a.installer_type == d.acquisition.installer_type@
                &&& a.arguments == text::views(d.install.arguments@)
                &&& a.success_codes == d.install.success_codes@
                &&& a.reboot_codes == d.install.reboot_codes@
                &&& a.elevation_required == d.elevation_required
                &&& !a.refreshed
            }
        }),
{
}

/// What the catalog resolves is fetched, and taken exactly when it has the
/// hash the catalog names. Switches that the package declares go before those
/// of the catalog, and elevation is needed where either says so.
pub proof fn lemma_what_becomes_of_the_catalogs_answer(
    stage: Stage,
    happened: Happened,
    d: Dependency,
    dir: Seq<char>,
    next: Stage,
)
    requires
        acquire::follows(stage, happened, d, dir, next),
    ensures
        stage is Resolve && happened is Resolved && happened->Resolved_0 is Ok ==> next is Fetch
            && next->resolved == happened->Resolved_0->Ok_0,
        stage is Resolve && happened is Resolved && happened->Resolved_0 is Err ==> next is Failed
            && next->Failed_0 == happened->Resolved_0->Err_0,
        stage is Fetch && happened is Downloaded ==> {
            let got = happened->Downloaded_0;
            let found = stage->resolved;
            let good = got is Ok && got->Ok_0@ == found.sha256@;
            &&& next is Done <==> good
            &&& next is Failed <==> !good
            &&& good ==> {
                let a = next->Done_0@;
                &&& a.path == stage->Fetch_path@
                &&& a.url == found.url@
                &&& a.sha256 == found.sha256@
                &&& a.version == found.version@
                &&& a.installer_type == found.installer_type@
                &&& a.refreshed
                &&& a.elevation_required == (d.elevation_required || found.elevation_required)
                &&& d.install.declared ==> a.arguments == text::views(d.install.arguments@)
                    && a.success_codes == d.install.success_codes@ && a.reboot_codes
                    == d.install.reboot_codes@
                &&& !d.install.declared ==> a.arguments == text::views(found.arguments@)
                    && a.success_codes == found.success_codes@ && a.reboot_codes
                    == found.reboot_codes@
            }
        },
        stage is Extract && happened is Extracted ==> {
            let got = happened->Extracted_0;
            let good = got is Ok && got->Ok_0@ == d.acquisition.sha256@;
            &&& next is Done <==> good
            &&& next is Failed <==> !good
            &&& good ==> next->Done_0@.path == stage->Extract_path@ && next->Done_0@.sha256
                == d.acquisition.sha256@ && next->Done_0@.arguments == text::views(
                d.install.arguments@,
            ) && !next->Done_0@.refreshed
        },
        stage is Done || stage is Failed ==> next == stage,
{
}

/// What an installer is called on disk is made of letters, digits, dots,
/// hyphens and underscores alone, whatever the address is.
pub proof fn lemma_a_download_has_a_plain_name(
    url: Seq<char>,
    id: Seq<char>,
    installer_type: Seq<char>,
)
    ensures
        ({
            let name = acquire::download_name(url, id, installer_type);
            &&& forall|i: int|
                0 <= i < name.len() ==> {
                    let c = #[trigger] name[i];
                    'a' <= c <= 'z' || 'A' <= c <= 'Z' || '0' <= c <= '9' || c == '.' || c == '-'
                        || c == '_'
                }
            &&& name.contains('.')
        }),
{
    reveal_strlit(".msi");
    reveal_strlit(".exe");
    let name = acquire::download_name(url, id, installer_type);
    let stem = acquire::stem(id);
    let end = if acquire::is_msi(installer_type) {
        ".msi"@
    } else {
        ".exe"@
    };
    assert(end.len() == 4);
    if acquire::is_safe(acquire::url_name(url)) {
        assert forall|i: int| 0 <= i < name.len() implies {
            let c = #[trigger] name[i];
            'a' <= c <= 'z' || 'A' <= c <= 'Z' || '0' <= c <= '9' || c == '.' || c == '-' || c
                == '_'
        } by {
            assert(acquire::is_plain(name[i]));
        }
    } else {
        assert(name == stem + end);
        assert(name[stem.len() as int] == '.');
    }
}

proof fn lemma_path_part_of(before: Seq<char>, rest: Seq<char>)
    requires
        forall|i: int| 0 <= i < before.len() ==> !acquire::ends_path(#[trigger] before[i]),
        rest.len() == 0 || acquire::ends_path(rest[0]),
    ensures
        acquire::path_part(before + rest) == before,
    decreases before.len(),
{
    let s = before + rest;
    if before.len() == 0 {
        assert(s =~= rest);
        assert(acquire::path_part(s) =~= before);
    } else {
        assert(s[0] == before[0]);
        assert(s.skip(1) =~= before.drop_first() + rest);
        lemma_path_part_of(before.drop_first(), rest);
        assert(seq![before[0]] + before.drop_first() =~= before);
    }
}

/// The name in an address is what stands behind the last slash of its path,
/// before a query or a fragment.
pub proof fn lemma_the_name_in_an_address(
    host: Seq<char>,
    folders: Seq<char>,
    name: Seq<char>,
    rest: Seq<char>,
)
    requires
        host.len() > 0,
        !host.contains('/') && !host.contains('?') && !host.contains('#'),
        !folders.contains('?') && !folders.contains('#'),
        !name.contains('/') && !name.contains('?') && !name.contains('#'),
        rest.len() == 0 || rest[0] == '?' || rest[0] == '#',
    ensures
        acquire::url_name(
            "https://"@ + (host + seq!['/'] + folders + seq!['/'] + name + rest),
        ) == name,
        acquire::url_name("https://"@ + (host + seq!['/'] + name + rest)) == name,
{
    let scheme = "https://"@;
    reveal_strlit("https://");
    let long = host + seq!['/'] + folders + seq!['/'] + name;
    let short = host + seq!['/'] + name;
    lemma_behind_https(long + rest);
    lemma_behind_https(short + rest);
    assert forall|i: int| 0 <= i < long.len() implies !acquire::ends_path(#[trigger] long[i]) by {
        let h = host.len() as int;
        let f = h + 1 + folders.len();
        if i < h {
            assert(long[i] == host[i]);
            assert(host.contains(host[i]));
        } else if i > h && i < f {
            assert(long[i] == folders[i - h - 1]);
            assert(folders.contains(folders[i - h - 1]));
        } else if i > f {
            assert(long[i] == name[i - f - 1]);
            assert(name.contains(name[i - f - 1]));
        }
    }
    assert forall|i: int| 0 <= i < short.len() implies !acquire::ends_path(#[trigger] short[i]) by {
        let h = host.len() as int;
        if i < h {
            assert(short[i] == host[i]);
            assert(host.contains(host[i]));
        } else if i > h {
            assert(short[i] == name[i - h - 1]);
            assert(name.contains(name[i - h - 1]));
        }
    }
    lemma_path_part_of(long, rest);
    lemma_path_part_of(short, rest);
    text::lemma_split_single(host, '/');
    text::lemma_split_single(name, '/');
    text::lemma_split_concat(host, name, '/');
    text::lemma_split_concat(host, folders, '/');
    text::lemma_split_concat(host + seq!['/'] + folders, name, '/');
    let a = text::split(long, '/');
    let b = text::split(short, '/');
    assert(a[0] == host);
    assert(a.last() == name);
    assert(b[0] == host);
    assert(b.last() == name);
}

proof fn lemma_behind_https(rest: Seq<char>)
    ensures
        acquire::behind_scheme("https://"@ + rest) == Some(rest),
{
    reveal_strlit("https://");
    let url = "https://"@ + rest;
    assert("https://"@.is_prefix_of(text::lower(url))) by {
        assert(text::lower(url).take(8) =~= "https://"@);
    }
    assert(url.skip(8) =~= rest);
}

/// Progress goes from nought to fifty, and never back.
pub proof fn lemma_progress_goes_forward(a: u64, b: u64, total: u64)
    requires
        a <= b <= total,
    ensures
        acquire::mark(a, total) <= acquire::mark(b, total),
        total > 0 ==> 0 <= acquire::mark(a, total) <= 50,
        total > 0 ==> acquire::mark(total, total) == 50 && acquire::mark(0, total) == 0,
{
    if total > 0 {
        let t = total as int;
        assert(a as int * 50 / t <= b as int * 50 / t) by (nonlinear_arith)
            requires
                a as int <= b as int,
                t > 0,
        ;
        assert(t * 50 / t == 50) by (nonlinear_arith)
            requires
                t > 0,
        ;
        assert(0int * 50 / t == 0) by (nonlinear_arith)
            requires
                t > 0,
        ;
        assert(0 <= a as int * 50 / t <= 50) by (nonlinear_arith)
            requires
                0 <= a as int <= t,
                t > 0,
        ;
    }
}

}
