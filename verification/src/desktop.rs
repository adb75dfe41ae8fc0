//! Zed installations found through desktop entries: which entries are Zed,
//! what an installation is made of, and keeping one installation per database.
use vstd::prelude::*;

use crate::channel::{channel_from_desktop, channel_of, db_path_for_channel, db_path_of};
use crate::paths::{file_stem_of, join_path, join_path_str, path_file_stem};
use crate::text::{first_word, first_word_of, opt_chars, opt_str};

verus! {

/// The URI scheme handler that marks a desktop entry as a Zed installation.
pub const SCHEMA_HANDLER_ID: &'static str = "x-scheme-handler/zed";

/// A Zed installation: how it is shown and launched, and where its workspace
/// database lives.
#[derive(Debug, Clone)]
pub struct ZedInstance {
    pub label: String,
    pub exec_path: String,
    pub app_id: String,
    pub icon: String,
    pub db_path: String,
}

/// The abstract value of a `ZedInstance`.
pub struct InstanceView {
    pub label: Seq<char>,
    pub exec_path: Seq<char>,
    pub app_id: Seq<char>,
    pub icon: Seq<char>,
    pub db_path: Seq<char>,
}

impl View for ZedInstance {
    type V = InstanceView;

    open spec fn view(&self) -> InstanceView {
        InstanceView {
            label: self.label@,
            exec_path: self.exec_path@,
            app_id: self.app_id@,
            icon: self.icon@,
            db_path: self.db_path@,
        }
    }
}

/// The view of an optional installation.
pub open spec fn opt_instance(o: Option<ZedInstance>) -> Option<InstanceView> {
    match o {
        Some(i) => Some(i@),
        None => None,
    }
}

/// The views of a sequence of installations.
pub open spec fn instance_views(s: Seq<ZedInstance>) -> Seq<InstanceView> {
    s.map_values(|i: ZedInstance| i@)
}

/// The fields of a desktop entry that decide whether and how it names a Zed installation.
pub struct DesktopFields {
    /// `Name`, unlocalized.
    pub name: Option<String>,
    /// `Exec`.
    pub exec_line: Option<String>,
    /// `Icon`.
    pub icon: Option<String>,
    /// `MimeType`, split at `;`.
    pub mime_types: Option<Vec<String>>,
}

/// The abstract value of `DesktopFields`.
pub struct DesktopFieldsView {
    pub name: Option<Seq<char>>,
    pub exec_line: Option<Seq<char>>,
    pub icon: Option<Seq<char>>,
    pub mime_types: Option<Seq<Seq<char>>>,
}

impl View for DesktopFields {
    type V = DesktopFieldsView;

    open spec fn view(&self) -> DesktopFieldsView {
        DesktopFieldsView {
            name: opt_chars(self.name),
            exec_line: opt_chars(self.exec_line),
            icon: opt_chars(self.icon),
            mime_types: match self.mime_types {
                Some(v) => Some(v.deep_view()),
                None => None,
            },
        }
    }
}

/// The entry lists the Zed URI scheme among its MIME types.
pub open spec fn handles_zed_scheme(mime_types: Option<Seq<Seq<char>>>) -> bool {
    match mime_types {
        Some(ts) => ts.contains(SCHEMA_HANDLER_ID@),
        None => false,
    }
}

/// The installation that a desktop entry at `path` describes, if it is a Zed entry
/// with an `Exec` line.
pub open spec fn instance_of(
    path: Seq<char>,
    f: DesktopFieldsView,
    data_dir: Option<Seq<char>>,
) -> Option<InstanceView> {
    if !handles_zed_scheme(f.mime_types) {
        None
    } else {
        match f.exec_line {
            None => None,
            Some(e) => {
                let exec = first_word(e);
                let label = match f.name {
                    Some(n) => n,
                    None => "Zed"@,
                };
                let icon = match f.icon {
                    Some(i) => i,
                    None => "zed"@,
                };
                let app_id = match path_file_stem(path) {
                    Some(s) => s,
                    None => "zed"@,
                };
                Some(
                    InstanceView {
                        label,
                        exec_path: exec,
                        app_id,
                        icon,
                        db_path: db_path_of(data_dir, channel_of(label, exec)),
                    },
                )
            },
        }
    }
}

/// A desktop entry names a Zed installation exactly when one of its MIME types is
/// `x-scheme-handler/zed` and it has an `Exec` line. The installation's executable is
/// the first word of `Exec`, its label the `Name` (or `Zed`), its icon the `Icon` (or
/// `zed`), and its database the one of the channel that the label and executable
/// name. Where the desktop file lies decides only the app id: the same entry at any
/// other path gives the same label, executable, icon and database.
pub proof fn lemma_installation_of_entry(
    path: Seq<char>,
    other_path: Seq<char>,
    f: DesktopFieldsView,
    data_dir: Option<Seq<char>>,
)
    ensures
        instance_of(path, f, data_dir) is Some <==> (f.exec_line is Some && f.mime_types is Some
            && f.mime_types.unwrap().contains("x-scheme-handler/zed"@)),
        instance_of(path, f, data_dir) matches Some(i) ==> {
            &&& i.exec_path == first_word(f.exec_line.unwrap())
            &&& i.label == (if f.name is Some {
                f.name.unwrap()
            } else {
                "Zed"@
            })
            &&& i.icon == (if f.icon is Some {
                f.icon.unwrap()
            } else {
                "zed"@
            })
            &&& i.db_path == db_path_of(data_dir, channel_of(i.label, i.exec_path))
        },
        instance_of(path, f, data_dir) matches Some(i) ==> instance_of(other_path, f, data_dir) matches Some(
            j,
        ) && j.label == i.label && j.exec_path == i.exec_path && j.icon == i.icon && j.db_path
            == i.db_path,
{
    assert(SCHEMA_HANDLER_ID@ == "x-scheme-handler/zed"@);
}

/// What `freedesktop_desktop_entry` reads from a desktop file that it accepts.
pub struct DesktopEntryData {
    /// The `Name` value as the file gives it, untranslated.
    pub name: Option<Seq<char>>,
    /// The `Exec` value.
    pub exec_line: Option<Seq<char>>,
    /// The `Icon` value.
    pub icon: Option<Seq<char>>,
    /// The `MimeType` value split at `;`.
    pub mime_types: Option<Seq<Seq<char>>>,
}

/// What `freedesktop_desktop_entry` reads from the desktop file at `path` with text
/// `content`: `None` when it rejects the file.
pub uninterp spec fn desktop_entry_data(path: Seq<char>, content: Seq<char>) -> Option<
    DesktopEntryData,
>;

/// The fields of parsed desktop-entry data.
pub open spec fn fields_of_entry(d: DesktopEntryData) -> DesktopFieldsView {
    DesktopFieldsView { name: d.name, exec_line: d.exec_line, icon: d.icon, mime_types: d.mime_types }
}

/// Parses `content` as the desktop file at `path` with
/// `freedesktop_desktop_entry::DesktopEntry::from_str` and reads the `Name`, `Exec`,
/// `Icon` and `MimeType` values of its `[Desktop Entry]` group, `MimeType` split at `;`.
/// Whether it parses, and what it holds, are a function of `path` and `content`, named
/// `desktop_entry_data`; the values are returned as stored. `Name` is read as stored
/// (`desktop_entry("Name")`), never through the crate's gettext lookup, which a file
/// setting `X-Ubuntu-Gettext-Domain` would trigger and which panics on a NUL byte or a
/// translation that is not UTF-8.
#[verifier::external_body]
fn parse_desktop_entry(path: &str, content: &str) -> (r: Option<DesktopFields>)
    ensures
        r is Some <==> desktop_entry_data(path@, content@) is Some,
        r matches Some(f) ==> {
            let d = desktop_entry_data(path@, content@).unwrap();
            f@ == fields_of_entry(d)
        },
{
    let locales: Vec<String> = Vec::new();
    match freedesktop_desktop_entry::DesktopEntry::from_str(path, content, Some(locales.as_slice())) {
        Ok(de) => Some(DesktopFields {
            name: de.desktop_entry("Name").map(|n| n.to_string()),
            exec_line: de.exec().map(|e| e.to_string()),
            icon: de.icon().map(|i| i.to_string()),
            mime_types: de.mime_type().map(|ts| ts.iter().map(|t| t.to_string()).collect()),
        }),
        Err(_) => None,
    }
}

/// Whether the MIME types include the Zed URI scheme.
#[verifier::loop_isolation(false)]
fn lists_zed_scheme(mime_types: &Option<Vec<String>>) -> (b: bool)
    ensures
        b == handles_zed_scheme(
            match mime_types {
                Some(v) => Some(v.deep_view()),
                None => None,
            },
        ),
{
    match mime_types {
        None => false,
        Some(ts) => {
            let target = SCHEMA_HANDLER_ID.to_owned();
            let mut i: usize = 0;
            while i < ts.len()
                invariant
                    i <= ts.len(),
                    target@ == SCHEMA_HANDLER_ID@,
                    forall|j: int| 0 <= j < i ==> ts.deep_view()[j] != SCHEMA_HANDLER_ID@,
                decreases ts.len() - i,
            {
                if ts[i] == target {
                    assert(ts.deep_view()[i as int] == SCHEMA_HANDLER_ID@);
                    assert(ts.deep_view().contains(SCHEMA_HANDLER_ID@));
                    return true;
                }
                i += 1;
            }
            false
        },
    }
}

/// The installation described by a desktop entry at `path` with fields `fields`;
/// `None` unless the entry handles the Zed URI scheme and has an `Exec` line.
pub fn instance_from_desktop_fields(path: &str, fields: &DesktopFields, data_dir: Option<&str>) -> (r:
    Option<ZedInstance>)
    ensures
        opt_instance(r) == instance_of(path@, fields@, opt_str(data_dir)),
{
    if !lists_zed_scheme(&fields.mime_types) {
        return None;
    }
    let exec_field = match &fields.exec_line {
        Some(e) => e,
        None => {
            return None;
        },
    };
    let exec = first_word_of(exec_field.as_str());
    let label = match &fields.name {
        Some(n) => n.clone(),
        None => "Zed".to_owned(),
    };
    let icon = match &fields.icon {
        Some(i) => i.clone(),
        None => "zed".to_owned(),
    };
    let app_id = match file_stem_of(path) {
        Some(s) => s,
        None => "zed".to_owned(),
    };
    let channel = channel_from_desktop(label.as_str(), exec.as_str());
    let db_path = db_path_for_channel(data_dir, channel);
    Some(ZedInstance { label, exec_path: exec, app_id, icon, db_path })
}

/// The installation described by the desktop file at `path` whose text is `content`.
/// A file the desktop-entry parser rejects gives `None`; otherwise the result is
/// `instance_from_desktop_fields` of the parsed `Name`, `Exec`, `Icon` and `MimeType`.
/// The name is the file's `Name` as stored, also where the file names a gettext domain.
pub fn zed_instance_from_desktop_file(path: &str, content: &str, data_dir: Option<&str>) -> (r:
    Option<ZedInstance>)
    ensures
        opt_instance(r) == match desktop_entry_data(path@, content@) {
            Some(d) => instance_of(path@, fields_of_entry(d), opt_str(data_dir)),
            None => None,
        },
{
    match parse_desktop_entry(path, content) {
        None => None,
        Some(fields) => instance_from_desktop_fields(path, &fields, data_dir),
    }
}

/// Some installation in `r` has database path `p`.
pub open spec fn has_db_path(r: Seq<InstanceView>, p: Seq<char>) -> bool {
    exists|j: int| 0 <= j < r.len() && #[trigger] r[j].db_path == p
}

/// The first installation for each database path, in the order given.
pub open spec fn first_per_db_path(s: Seq<InstanceView>) -> Seq<InstanceView>
    decreases s.len(),
{
    if s.len() == 0 {
        Seq::<InstanceView>::empty()
    } else {
        let prev = first_per_db_path(s.drop_last());
        if has_db_path(prev, s.last().db_path) {
            prev
        } else {
            prev.push(s.last())
        }
    }
}

/// The installation at `a` is the first in `s` with its database path.
pub open spec fn is_first_for_db_path(s: Seq<InstanceView>, a: int) -> bool {
    forall|b: int| 0 <= b < a ==> #[trigger] s[b].db_path != s[a].db_path
}

/// `idx` lists, in increasing order, positions in `s` of installations that come first
/// for their database path, and `r` holds the installations at those positions.
pub open spec fn kept_positions(s: Seq<InstanceView>, r: Seq<InstanceView>, idx: Seq<int>) -> bool {
    &&& idx.len() == r.len()
    &&& forall|i: int|
        0 <= i < r.len() ==> 0 <= #[trigger] idx[i] < s.len() && s[idx[i]] == r[i]
            && is_first_for_db_path(s, idx[i])
    &&& forall|i: int, j: int| 0 <= i < j < r.len() ==> #[trigger] idx[i] < #[trigger] idx[j]
}

/// Keeping the first installation per database path leaves no two installations with
/// the same database path, loses no database path, and keeps, in the order given,
/// exactly the installations that come first for their database path.
pub proof fn lemma_first_per_db_path(s: Seq<InstanceView>)
    ensures
        forall|i: int, j: int|
            0 <= i < j < first_per_db_path(s).len() ==> #[trigger] first_per_db_path(s)[i].db_path
                != #[trigger] first_per_db_path(s)[j].db_path,
        forall|k: int| 0 <= k < s.len() ==> has_db_path(first_per_db_path(s), #[trigger] s[k].db_path),
        exists|idx: Seq<int>| #[trigger] kept_positions(s, first_per_db_path(s), idx),
    decreases s.len(),
{
    if s.len() == 0 {
        assert(kept_positions(s, first_per_db_path(s), Seq::<int>::empty()));
        return;
    }
    let front = s.drop_last();
    lemma_first_per_db_path(front);
    let prev = first_per_db_path(front);
    let x = s.last();
    let last = s.len() - 1;
    let idx0 = choose|idx: Seq<int>| #[trigger] kept_positions(front, prev, idx);
    assert forall|i: int| 0 <= i < prev.len() implies 0 <= #[trigger] idx0[i] < s.len() && s[idx0[i]]
        == prev[i] && is_first_for_db_path(s, idx0[i]) by {
        assert(s[idx0[i]] == front[idx0[i]]);
        assert forall|b: int| 0 <= b < idx0[i] implies #[trigger] s[b].db_path != s[idx0[i]].db_path by {
            assert(s[b] == front[b]);
        }
    }
    assert forall|k: int| 0 <= k < last implies has_db_path(prev, #[trigger] s[k].db_path) by {
        assert(s[k] == front[k]);
    }
    if has_db_path(prev, x.db_path) {
        assert(first_per_db_path(s) == prev);
        assert(kept_positions(s, prev, idx0));
    } else {
        let r = prev.push(x);
        assert(first_per_db_path(s) == r);
        assert forall|i: int, j: int| 0 <= i < j < r.len() implies #[trigger] r[i].db_path
            != #[trigger] r[j].db_path by {
            assert(r[i] == prev[i]);
            if j < prev.len() {
                assert(r[j] == prev[j]);
            } else {
                assert(r[j] == x);
                if r[i].db_path == r[j].db_path {
                    assert(has_db_path(prev, x.db_path));
                }
            }
        }
        assert forall|k: int| 0 <= k < s.len() implies has_db_path(r, #[trigger] s[k].db_path) by {
            if k < last {
                let j0 = choose|j: int| 0 <= j < prev.len() && #[trigger] prev[j].db_path == s[k].db_path;
                assert(r[j0] == prev[j0]);
                assert(r[j0].db_path == s[k].db_path);
            } else {
                assert(r[prev.len() as int] == x);
                assert(r[prev.len() as int].db_path == s[k].db_path);
            }
        }
        assert forall|b: int| 0 <= b < last implies #[trigger] s[b].db_path != s[last].db_path by {
            if s[b].db_path == s[last].db_path {
                assert(has_db_path(prev, s[b].db_path));
            }
        }
        assert(is_first_for_db_path(s, last));
        let idx = idx0.push(last);
        assert forall|i: int| 0 <= i < r.len() implies 0 <= #[trigger] idx[i] < s.len() && s[idx[i]]
            == r[i] && is_first_for_db_path(s, idx[i]) by {
            if i < prev.len() {
                assert(idx[i] == idx0[i]);
                assert(r[i] == prev[i]);
            }
        }
        assert forall|i: int, j: int| 0 <= i < j < r.len() implies #[trigger] idx[i] < #[trigger] idx[j] by {
            assert(idx[i] == idx0[i]);
            if j < prev.len() {
                assert(idx[j] == idx0[j]);
            }
        }
        assert(kept_positions(s, r, idx));
    }
}

/// Keeps the first installation for each database path, in order (earlier XDG
/// directories, the user's own before the system's, come first).
pub fn dedup_instances(instances: Vec<ZedInstance>) -> (r: Vec<ZedInstance>)
    ensures
        instance_views(r@) == first_per_db_path(instance_views(instances@)),
        forall|i: int, j: int|
            0 <= i < j < r@.len() ==> #[trigger] r@[i].db_path@ != #[trigger] r@[j].db_path@,
        forall|k: int|
            0 <= k < instances@.len() ==> has_db_path(
                instance_views(r@),
                #[trigger] instances@[k].db_path@,
            ),
        exists|idx: Seq<int>|
            #[trigger] kept_positions(instance_views(instances@), instance_views(r@), idx),
{
    let ghost orig = instance_views(instances@);
    let mut rest = instances;
    let mut out: Vec<ZedInstance> = Vec::new();
    let ghost k: int = 0;
    while rest.len() > 0
        invariant
            0 <= k <= orig.len(),
            instance_views(rest@) == orig.skip(k),
            instance_views(out@) == first_per_db_path(orig.take(k)),
        decreases rest.len(),
    {
        let ghost before = rest@;
        assert(instance_views(before)[0] == before[0]@);
        assert(instance_views(before).len() == before.len());
        assert(k < orig.len());
        assert(orig.skip(k)[0] == orig[k]);
        let inst = rest.remove(0);
        assert forall|i: int| 0 <= i < rest@.len() implies instance_views(rest@)[i] == orig.skip(
            k + 1,
        )[i] by {
            assert(rest@[i] == before[i + 1]);
            assert(instance_views(before)[i + 1] == before[i + 1]@);
            assert(orig.skip(k)[i + 1] == orig[k + 1 + i]);
        }
        assert(instance_views(rest@) =~= orig.skip(k + 1));
        assert(inst@ == orig[k]);
        assert(orig.take(k + 1).drop_last() =~= orig.take(k));
        assert(orig.take(k + 1).last() == orig[k]);
        let ghost prev = instance_views(out@);
        let mut seen = false;
        let mut j: usize = 0;
        while j < out.len()
            invariant
                j <= out.len(),
                prev == instance_views(out@),
                prev.len() == out@.len(),
                seen <==> has_db_path(prev.take(j as int), inst@.db_path),
            decreases out.len() - j,
        {
            assert(prev[j as int] == out@[j as int]@);
            let same = out[j].db_path == inst.db_path;
            assert(same == (prev[j as int].db_path == inst@.db_path));
            let ghost before_take = prev.take(j as int);
            if same {
                seen = true;
            }
            j += 1;
            assert(prev.take(j as int) =~= before_take.push(prev[j - 1]));
            proof {
                let now = prev.take(j as int);
                if has_db_path(before_take, inst@.db_path) {
                    let t0 = choose|t: int|
                        0 <= t < before_take.len() && #[trigger] before_take[t].db_path == inst@.db_path;
                    assert(now[t0] == before_take[t0]);
                }
                if has_db_path(now, inst@.db_path) && !has_db_path(before_take, inst@.db_path) {
                    let t0 = choose|t: int| 0 <= t < now.len() && #[trigger] now[t].db_path == inst@.db_path;
                    if t0 < before_take.len() {
                        assert(before_take[t0] == now[t0]);
                    } else {
                        assert(now[t0] == prev[t0]);
                    }
                }
                if prev[j - 1].db_path == inst@.db_path {
                    assert(now[j - 1] == prev[j - 1]);
                    assert(now[j - 1].db_path == inst@.db_path);
                }
            }
        }
        assert(prev.take(prev.len() as int) =~= prev);
        if !seen {
            out.push(inst);
            assert(instance_views(out@) =~= prev.push(inst@));
        }
        proof {
            k = k + 1;
        }
    }
    assert(orig.take(k) =~= orig);
    proof {
        lemma_first_per_db_path(orig);
        let fv = instance_views(out@);
        assert(fv == first_per_db_path(orig));
        assert forall|i: int, j: int| 0 <= i < j < out@.len() implies #[trigger] out@[i].db_path@
            != #[trigger] out@[j].db_path@ by {
            assert(fv[i] == out@[i]@ && fv[j] == out@[j]@);
            assert(fv[i].db_path != fv[j].db_path);
        }
        assert forall|k: int| 0 <= k < instances@.len() implies has_db_path(
            fv,
            #[trigger] instances@[k].db_path@,
        ) by {
            assert(orig[k] == instances@[k]@);
            assert(has_db_path(fv, orig[k].db_path));
        }
    }
    out
}

/// The `applications` directories under the data home (if any) and then under each
/// data directory, in order.
pub open spec fn application_dirs_of(home: Option<Seq<char>>, dirs: Seq<Seq<char>>) -> Seq<
    Seq<char>,
> {
    let rest = dirs.map_values(|d: Seq<char>| join_path(d, "applications"@));
    match home {
        Some(h) => seq![join_path(h, "applications"@)] + rest,
        None => rest,
    }
}

/// The directories searched for desktop entries: `applications` under the XDG data
/// home, then under each XDG data directory.
pub fn application_dirs(data_home: Option<&str>, data_dirs: &Vec<String>) -> (r: Vec<String>)
    ensures
        r.deep_view() == application_dirs_of(opt_str(data_home), data_dirs.deep_view()),
{
    let mut out: Vec<String> = Vec::new();
    let ghost head: Seq<Seq<char>> = match data_home {
        Some(h) => seq![join_path(h@, "applications"@)],
        None => Seq::<Seq<char>>::empty(),
    };
    if let Some(h) = data_home {
        out.push(join_path_str(h, "applications"));
        assert(out.deep_view() =~= head);
    } else {
        assert(out.deep_view() =~= head);
    }
    let mut i: usize = 0;
    while i < data_dirs.len()
        invariant
            i <= data_dirs.len(),
            out.deep_view() == head + data_dirs.deep_view().take(i as int).map_values(
                |d: Seq<char>| join_path(d, "applications"@),
            ),
        decreases data_dirs.len() - i,
    {
        let ghost before = out.deep_view();
        let dir = join_path_str(data_dirs[i].as_str(), "applications");
        out.push(dir);
        assert(out.deep_view() =~= before.push(join_path(data_dirs[i as int]@, "applications"@)));
        assert(data_dirs.deep_view().take(i + 1).map_values(
            |d: Seq<char>| join_path(d, "applications"@),
        ) =~= data_dirs.deep_view().take(i as int).map_values(
            |d: Seq<char>| join_path(d, "applications"@),
        ).push(join_path(data_dirs[i as int]@, "applications"@)));
        i += 1;
    }
    assert(data_dirs.deep_view().take(data_dirs.len() as int) =~= data_dirs.deep_view());
    out
}

} // verus!
