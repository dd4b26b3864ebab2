//! Known editors, which of them are installed, and how to open a repo in one.

use vstd::prelude::*;
use crate::platform::{
    adjoined, base64_standard, components_prefix, is_joint, is_plain_name, is_simple_path, verbatim_like,
};
use crate::text::{
    concat_text, has_suffix, lines, same_text, split_lines, text_le, text_lt, trim, trim_text, views,
};

verus! {

/// An editor the dashboard can open a repo in.
#[derive(Debug)]
pub struct Editor {
    /// Stable id used when the frontend asks to open a path.
    pub id: String,
    /// Human-readable name.
    pub name: String,
    /// `data:image/png;base64,…` of the app's real icon, if we could extract it.
    pub icon: Option<String>,
    /// True for the always-available "Reveal in Finder/Explorer" action, which
    /// is not a real editor and must not be used as the default.
    pub is_reveal: bool,
}

pub struct EditorView {
    pub id: Seq<char>,
    pub name: Seq<char>,
    pub icon: Option<Seq<char>>,
    pub is_reveal: bool,
}

impl View for Editor {
    type V = EditorView;

    open spec fn view(&self) -> EditorView {
        EditorView {
            id: self.id@,
            name: self.name@,
            icon: crate::repos::opt_view(self.icon),
            is_reveal: self.is_reveal,
        }
    }
}

/// A known editor and how to detect and launch it.
#[derive(Debug)]
pub struct EditorDef {
    pub id: String,
    pub name: String,
    /// Command names to look for on PATH (first match wins).
    pub cli: Vec<String>,
    /// macOS application bundle name.
    pub mac_app: Option<String>,
}

pub struct EditorDefView {
    pub id: Seq<char>,
    pub name: Seq<char>,
    pub cli: Seq<Seq<char>>,
    pub mac_app: Option<Seq<char>>,
}

impl View for EditorDef {
    type V = EditorDefView;

    open spec fn view(&self) -> EditorDefView {
        EditorDefView {
            id: self.id@,
            name: self.name@,
            cli: views(self.cli@),
            mac_app: crate::repos::opt_view(self.mac_app),
        }
    }
}

pub open spec fn def_spec(
    id: Seq<char>,
    name: Seq<char>,
    cli: Seq<Seq<char>>,
    mac_app: Seq<char>,
) -> EditorDefView {
    EditorDefView { id, name, cli, mac_app: Some(mac_app) }
}

/// The known editors, in the order they are offered.
pub open spec fn editor_defs_spec() -> Seq<EditorDefView> {
    seq![
        def_spec("vscode"@, "VS Code"@, seq!["code"@], "Visual Studio Code"@),
        def_spec("cursor"@, "Cursor"@, seq!["cursor"@], "Cursor"@),
        def_spec("windsurf"@, "Windsurf"@, seq!["windsurf"@], "Windsurf"@),
        def_spec("antigravity"@, "Antigravity"@, seq!["antigravity"@], "Antigravity"@),
        def_spec("zed"@, "Zed"@, seq!["zed"@], "Zed"@),
        def_spec("sublime"@, "Sublime Text"@, seq!["subl"@], "Sublime Text"@),
        def_spec("intellij"@, "IntelliJ IDEA"@, seq!["idea"@], "IntelliJ IDEA"@),
        def_spec("webstorm"@, "WebStorm"@, seq!["webstorm"@], "WebStorm"@),
        def_spec("android-studio"@, "Android Studio"@, seq![], "Android Studio"@),
    ]
}

fn make_def(id: &str, name: &str, cli: &str, mac_app: &str) -> (r: EditorDef)
    ensures
        r@ == def_spec(id@, name@, seq![cli@], mac_app@),
{
    let mut c: Vec<String> = Vec::new();
    c.push(String::from_str(cli));
    proof {
        assert(views(c@) =~= seq![cli@]);
    }
    EditorDef {
        id: String::from_str(id),
        name: String::from_str(name),
        cli: c,
        mac_app: Some(String::from_str(mac_app)),
    }
}

/// The known editors.
pub fn editor_defs() -> (r: Vec<EditorDef>)
    ensures
        r@.map_values(|d: EditorDef| d@) == editor_defs_spec(),
{
    let mut r: Vec<EditorDef> = Vec::new();
    r.push(make_def("vscode", "VS Code", "code", "Visual Studio Code"));
    r.push(make_def("cursor", "Cursor", "cursor", "Cursor"));
    r.push(make_def("windsurf", "Windsurf", "windsurf", "Windsurf"));
    r.push(make_def("antigravity", "Antigravity", "antigravity", "Antigravity"));
    r.push(make_def("zed", "Zed", "zed", "Zed"));
    r.push(make_def("sublime", "Sublime Text", "subl", "Sublime Text"));
    r.push(make_def("intellij", "IntelliJ IDEA", "idea", "IntelliJ IDEA"));
    r.push(make_def("webstorm", "WebStorm", "webstorm", "WebStorm"));
    let studio = EditorDef {
        id: String::from_str("android-studio"),
        name: String::from_str("Android Studio"),
        cli: Vec::new(),
        mac_app: Some(String::from_str("Android Studio")),
    };
    proof {
        assert(views(studio.cli@) =~= Seq::<Seq<char>>::empty());
    }
    r.push(studio);
    proof {
        assert(r@.map_values(|d: EditorDef| d@) =~= editor_defs_spec());
    }
    r
}

/// The path `which` (`where` on Windows) printed for a command: the first
/// line of its output, trimmed, when the lookup succeeded and that line is
/// not blank.
pub open spec fn cli_path_of(ok: bool, stdout: Seq<char>) -> Option<Seq<char>> {
    if !ok || lines(stdout).len() == 0 || trim(lines(stdout)[0]).len() == 0 {
        None
    } else {
        Some(trim(lines(stdout)[0]))
    }
}

pub fn cli_path_from(ok: bool, stdout: &str) -> (r: Option<String>)
    ensures
        crate::repos::opt_view(r) == cli_path_of(ok, stdout@),
{
    if !ok {
        return None;
    }
    let ls = split_lines(stdout);
    if ls.len() == 0 {
        return None;
    }
    proof {
        assert(views(ls@)[0] == ls@[0]@);
    }
    let first = trim_text(ls[0].as_str());
    if first.unicode_len() == 0 {
        None
    } else {
        Some(first)
    }
}

/// The icon file an application bundle names (its `CFBundleIconFile`, as
/// `defaults read` printed it): trimmed, with `.icns` added unless it ends
/// with it; none when the read failed or printed nothing.
pub open spec fn icon_file_of(ok: bool, stdout: Seq<char>) -> Option<Seq<char>> {
    if !ok || trim(stdout).len() == 0 {
        None
    } else if has_suffix(trim(stdout), ".icns"@) {
        Some(trim(stdout))
    } else {
        Some(trim(stdout) + ".icns"@)
    }
}

pub fn icon_file_name(ok: bool, stdout: &str) -> (r: Option<String>)
    ensures
        crate::repos::opt_view(r) == icon_file_of(ok, stdout@),
{
    if !ok {
        return None;
    }
    let name = trim_text(stdout);
    if name.unicode_len() == 0 {
        return None;
    }
    match crate::text::strip_suffix_text(name.as_str(), ".icns") {
        Some(_) => Some(name),
        None => Some(concat_text(name.as_str(), ".icns")),
    }
}

/// Whether a file name has the extension `icns`, as `Path::extension` reads
/// it: the text after the last dot, when something comes before that dot.
pub open spec fn is_icns_name(name: Seq<char>) -> bool {
    has_suffix(name, ".icns"@) && name.len() > 5
}

/// The least (in text order) of the `.icns` names among `names`.
pub open spec fn least_icns(names: Seq<Seq<char>>) -> Option<Seq<char>>
    decreases names.len(),
{
    if names.len() == 0 {
        None
    } else {
        let rest = least_icns(names.drop_last());
        let n = names.last();
        if !is_icns_name(n) {
            rest
        } else {
            match rest {
                None => Some(n),
                Some(m) => if text_lt(n, m) {
                    Some(n)
                } else {
                    Some(m)
                },
            }
        }
    }
}

/// The icon file to use when the bundle names none that exists: the first
/// `.icns` file of its resources folder in sorted order.
pub fn first_icns(names: &Vec<String>) -> (r: Option<String>)
    ensures
        crate::repos::opt_view(r) == least_icns(views(names@)),
{
    let mut best: Option<String> = None;
    let mut i: usize = 0;
    proof {
        assert(views(names@).take(0) =~= Seq::<Seq<char>>::empty());
    }
    while i < names.len()
        invariant
            i <= names@.len(),
            crate::repos::opt_view(best) == least_icns(views(names@).take(i as int)),
        decreases names@.len() - i,
    {
        proof {
            let t = views(names@).take(i + 1);
            assert(t.drop_last() =~= views(names@).take(i as int));
            assert(t.last() == names@[i as int]@);
        }
        let n = names[i].as_str();
        let icns = n.unicode_len() > 5 && crate::text::strip_suffix_text(n, ".icns").is_some();
        if icns {
            let better = match &best {
                None => true,
                Some(m) => crate::text::less_text(n, m.as_str()),
            };
            if better {
                best = Some(String::from_str(n));
            }
        }
        i = i + 1;
    }
    proof {
        assert(views(names@).take(i as int) =~= views(names@));
    }
    best
}

/// What `least_icns` picks is one of the `.icns` names, and no `.icns` name
/// comes before it: it is the first of them once they are sorted. It picks
/// none exactly when there is no `.icns` name.
pub proof fn lemma_least_icns_is_first(names: Seq<Seq<char>>)
    ensures
        least_icns(names) is None <==> (forall|k: int|
            0 <= k < names.len() ==> !is_icns_name(#[trigger] names[k])),
        least_icns(names) matches Some(m) ==> names.contains(m) && is_icns_name(m) && forall|k: int|
            0 <= k < names.len() && is_icns_name(#[trigger] names[k]) ==> text_le(m, names[k]),
    decreases names.len(),
{
    if names.len() > 0 {
        let init = names.drop_last();
        let last = names.len() - 1;
        let n = names.last();
        lemma_least_icns_is_first(init);
        assert(names[last] == n);
        assert forall|k: int| 0 <= k < init.len() implies #[trigger] names[k] == init[k] by {}
        if !is_icns_name(n) {
            assert(least_icns(names) == least_icns(init));
            if least_icns(init) is None {
                assert forall|k: int| 0 <= k < names.len() implies !is_icns_name(#[trigger] names[k]) by {
                    if k < init.len() {
                        assert(!is_icns_name(init[k]));
                    }
                }
            } else {
                let m = least_icns(init)->0;
                let k0 = choose|k: int| 0 <= k < init.len() && init[k] == m;
                assert(names[k0] == m);
                assert forall|k: int| 0 <= k < names.len() && is_icns_name(#[trigger] names[k]) implies text_le(
                    m,
                    names[k],
                ) by {
                    assert(k < init.len());
                    assert(is_icns_name(init[k]));
                }
            }
        } else {
            crate::text::lemma_text_lt_irreflexive(n);
            match least_icns(init) {
                None => {
                    assert(least_icns(names) == Some(n));
                    assert forall|k: int| 0 <= k < names.len() && is_icns_name(#[trigger] names[k]) implies text_le(
                        n,
                        names[k],
                    ) by {
                        if k < init.len() {
                            assert(!is_icns_name(init[k]));
                        }
                    }
                },
                Some(m) => {
                    let k0 = choose|k: int| 0 <= k < init.len() && init[k] == m;
                    assert(names[k0] == m);
                    if text_lt(n, m) {
                        assert(least_icns(names) == Some(n));
                        assert forall|k: int| 0 <= k < names.len() && is_icns_name(#[trigger] names[k]) implies text_le(
                            n,
                            names[k],
                        ) by {
                            if k < init.len() {
                                assert(is_icns_name(init[k]));
                                assert(text_le(m, init[k]));
                                if text_lt(names[k], n) {
                                    crate::text::lemma_text_lt_trans(names[k], n, m);
                                }
                            }
                        }
                    } else {
                        assert(least_icns(names) == Some(m));
                        assert forall|k: int| 0 <= k < names.len() && is_icns_name(#[trigger] names[k]) implies text_le(
                            m,
                            names[k],
                        ) by {
                            if k < init.len() {
                                assert(is_icns_name(init[k]));
                            }
                        }
                    }
                },
            }
        }
    }
}

/// The places an application bundle named `app` may be installed, in the
/// order they are looked at: `/Applications`, then `Applications` in the
/// home folder when there is one. For a bundle name that is a plain path
/// component, the second candidate ends with it, and for a home folder
/// without a verbatim prefix it is the home folder, `Applications` and the
/// bundle name, joined by at most one separator each.
pub fn bundle_candidates(app: &str, home: Option<String>) -> (r: Vec<String>)
    ensures
        r@.len() == (if home is Some {
            2int
        } else {
            1int
        }),
        r@[0]@ == "/Applications/"@ + app@ + ".app"@,
        home is Some && is_plain_name(app@ + ".app"@) ==> has_suffix(r@[1]@, app@ + ".app"@),
        home matches Some(h) ==> (is_plain_name(app@ + ".app"@) && !verbatim_like(h@) ==> exists|
            j1: Seq<char>,
            j2: Seq<char>,
        |
            is_joint(j1) && is_joint(j2) && r@[1]@ == h@ + j1 + "Applications"@ + j2 + (app@ + ".app"@)),
{
    let bundle = concat_text(app, ".app");
    let mut r: Vec<String> = Vec::new();
    r.push(concat_text("/Applications/", bundle.as_str()));
    match home {
        Some(h) => {
            let apps = crate::platform::join_path(h.as_str(), "Applications");
            proof {
                let name = "Applications"@;
                reveal_strlit("Applications");
                reveal_strlit(".");
                reveal_strlit("..");
                assert(name =~= seq!['A', 'p', 'p', 'l', 'i', 'c', 'a', 't', 'i', 'o', 'n', 's']);
                assert(name.len() != "."@.len() && name.len() != ".."@.len());
                assert(is_plain_name(name));
                if !verbatim_like(h@) {
                    let j1 = lemma_adjoined_joint(h@, name, apps@);
                    lemma_adjoined_not_verbatim(h@, j1, name);
                }
            }
            let second = crate::platform::join_path(apps.as_str(), bundle.as_str());
            r.push(second);
            proof {
                assert(r@[1] == second);
                if is_plain_name(bundle@) && !verbatim_like(h@) {
                    let j1 = lemma_adjoined_joint(h@, "Applications"@, apps@);
                    let j2 = lemma_adjoined_joint(apps@, bundle@, second@);
                    assert(second@ =~= h@ + j1 + "Applications"@ + j2 + bundle@);
                }
            }
        },
        None => {},
    }
    r
}

/// The joint between two adjoined paths.
proof fn lemma_adjoined_joint(base: Seq<char>, part: Seq<char>, r: Seq<char>) -> (j: Seq<char>)
    requires
        adjoined(base, part, r),
    ensures
        is_joint(j),
        r == base + j + part,
{
    if r == base + part {
        assert(base + Seq::<char>::empty() =~= base);
        Seq::<char>::empty()
    } else if r == base + seq!['/'] + part {
        seq!['/']
    } else {
        seq!['\\']
    }
}

/// A path adjoined to one without a verbatim prefix by at most one separator
/// and a plain name without `?` has no verbatim prefix either.
proof fn lemma_adjoined_not_verbatim(base: Seq<char>, j: Seq<char>, name: Seq<char>)
    requires
        !verbatim_like(base),
        is_joint(j),
        is_plain_name(name),
        forall|i: int| 0 <= i < name.len() ==> #[trigger] name[i] != '?',
    ensures
        !verbatim_like(base + j + name),
{
    let p = base + j + name;
    if p.len() >= 3 && base.len() < 3 {
        let k = 2 - base.len() - j.len();
        if k >= 0 {
            assert(p[2] == name[k]);
        } else {
            assert(p[2] == j[2 - base.len()]);
        }
    } else if p.len() >= 3 {
        assert(p[0] == base[0] && p[1] == base[1] && p[2] == base[2]);
    }
}

pub open spec fn outside_root_message() -> Seq<char> {
    "path is outside the configured root folder"@
}

/// Where a request to open `path` may go, from the canonical root folder (or
/// why it could not be had), the canonical form of `path` (none when it does
/// not exist) and whether that lies inside the root: the canonical path, or
/// why it is refused.
pub open spec fn confined(
    root: Result<Seq<char>, Seq<char>>,
    target: Option<Seq<char>>,
    path: Seq<char>,
    inside: bool,
) -> Result<Seq<char>, Seq<char>> {
    match root {
        Err(e) => Err("bad root: "@ + e),
        Ok(_) => match target {
            None => Err("path does not exist: "@ + path),
            Some(t) => if inside {
                Ok(t)
            } else {
                Err(outside_root_message())
            },
        },
    }
}

pub open spec fn text_result(r: Result<String, String>) -> Result<Seq<char>, Seq<char>> {
    match r {
        Ok(x) => Ok(x@),
        Err(e) => Err(e@),
    }
}

/// Decides an open request, given whether the canonical path lies inside the
/// canonical root.
pub fn confine(root: Result<String, String>, target: Option<String>, path: &str, inside: bool) -> (r: Result<
    String,
    String,
>)
    ensures
        text_result(r) == confined(text_result(root), crate::repos::opt_view(target), path@, inside),
{
    match root {
        Err(e) => Err(concat_text("bad root: ", e.as_str())),
        Ok(_) => match target {
            None => Err(concat_text("path does not exist: ", path)),
            Some(t) => if inside {
                Ok(t)
            } else {
                Err(String::from_str("path is outside the configured root folder"))
            },
        },
    }
}

/// Confines an open request to the configured root folder: the canonical path
/// to open when it lies inside the canonical root, else why not. Only a path
/// that the component-wise prefix test accepts is ever handed back; for
/// simple paths (see `is_simple_path`) that test is whether the root's
/// components come first among the path's.
pub fn confine_to_root(root: Result<String, String>, target: Option<String>, path: &str) -> (r: Result<
    String,
    String,
>)
    ensures
        exists|inside: bool| text_result(r) == #[trigger] confined(
            text_result(root),
            crate::repos::opt_view(target),
            path@,
            inside,
        ),
        root matches Ok(b) ==> (target matches Some(t) ==> (is_simple_path(b@) && is_simple_path(t@)
            ==> text_result(r) == confined(
            text_result(root),
            crate::repos::opt_view(target),
            path@,
            components_prefix(b@, t@),
        ))),
{
    let inside = match (&root, &target) {
        (Ok(base), Some(t)) => crate::platform::path_starts_with(t.as_str(), base.as_str()),
        _ => false,
    };
    confine(root, target, path, inside)
}

/// The platform the app runs on.
#[derive(Debug, Clone, Copy, PartialEq, Eq, Structural)]
pub enum Platform {
    MacOs,
    Windows,
    Other,
}

/// What was found on this machine for one known editor.
#[derive(Debug)]
pub struct EditorProbe {
    /// For each of the editor's command names, whether it is on PATH.
    pub cli_found: Vec<bool>,
    /// Whether its macOS application bundle exists.
    pub bundle_found: bool,
    /// A 32px PNG of the bundle's icon, if one could be made.
    pub icon_png: Option<Vec<u8>>,
}

pub struct EditorProbeView {
    pub cli_found: Seq<bool>,
    pub bundle_found: bool,
    pub icon_png: Option<Seq<u8>>,
}

impl View for EditorProbe {
    type V = EditorProbeView;

    open spec fn view(&self) -> EditorProbeView {
        EditorProbeView {
            cli_found: self.cli_found@,
            bundle_found: self.bundle_found,
            icon_png: match self.icon_png {
                Some(b) => Some(b@),
                None => None,
            },
        }
    }
}

pub open spec fn probe_views(v: Seq<EditorProbe>) -> Seq<EditorProbeView> {
    v.map_values(|p: EditorProbe| p@)
}

/// The probe of editor `i`; a probe that found nothing where none is given.
pub open spec fn probe_at(ps: Seq<EditorProbeView>, i: int) -> EditorProbeView {
    if 0 <= i < ps.len() {
        ps[i]
    } else {
        EditorProbeView { cli_found: Seq::empty(), bundle_found: false, icon_png: None }
    }
}

/// The data URI of a PNG icon.
pub open spec fn icon_uri(png: Option<Seq<u8>>) -> Option<Seq<char>> {
    match png {
        Some(b) => Some("data:image/png;base64,"@ + base64_standard(b)),
        None => None,
    }
}

/// Whether a probe found the editor: a command on PATH, or, on macOS, its
/// application bundle.
pub open spec fn installed(p: EditorProbeView, platform: Platform) -> bool {
    p.cli_found.contains(true) || (platform == Platform::MacOs && p.bundle_found)
}

/// The entry offered for editor `d` with probe `p`; its icon comes from the
/// application bundle, on macOS only.
pub open spec fn offered(d: EditorDefView, p: EditorProbeView, platform: Platform) -> EditorView {
    EditorView {
        id: d.id,
        name: d.name,
        icon: if platform == Platform::MacOs && p.bundle_found {
            icon_uri(p.icon_png)
        } else {
            None
        },
        is_reveal: false,
    }
}

/// The installed editors among the first `n` known ones, in order.
pub open spec fn installed_editors(ps: Seq<EditorProbeView>, platform: Platform, n: nat) -> Seq<EditorView>
    decreases n,
{
    if n == 0 {
        seq![]
    } else {
        let rest = installed_editors(ps, platform, (n - 1) as nat);
        let p = probe_at(ps, n - 1);
        if installed(p, platform) {
            rest.push(offered(editor_defs_spec()[n - 1], p, platform))
        } else {
            rest
        }
    }
}

/// The name of the always-available reveal action on `platform`.
pub open spec fn reveal_name(platform: Platform) -> Seq<char> {
    match platform {
        Platform::MacOs => "Reveal in Finder"@,
        Platform::Windows => "Reveal in Explorer"@,
        Platform::Other => "Open folder"@,
    }
}

/// The reveal action, with the file manager's icon on macOS.
pub open spec fn reveal_entry(platform: Platform, icon_png: Option<Seq<u8>>) -> EditorView {
    EditorView {
        id: "reveal"@,
        name: reveal_name(platform),
        icon: if platform == Platform::MacOs {
            icon_uri(icon_png)
        } else {
            None
        },
        is_reveal: true,
    }
}

pub open spec fn editor_views(v: Seq<Editor>) -> Seq<EditorView> {
    v.map_values(|e: Editor| e@)
}

fn icon_data_uri(png: &Option<Vec<u8>>) -> (r: Option<String>)
    ensures
        crate::repos::opt_view(r) == icon_uri(
            match png {
                Some(b) => Some(b@),
                None => None,
            },
        ),
{
    match png {
        Some(b) => {
            let enc = crate::platform::base64_encode(b.as_slice());
            Some(concat_text("data:image/png;base64,", enc.as_str()))
        },
        None => None,
    }
}

fn any_true(v: &Vec<bool>) -> (r: bool)
    ensures
        r == v@.contains(true),
{
    let mut i: usize = 0;
    while i < v.len()
        invariant
            i <= v@.len(),
            forall|k: int| 0 <= k < i ==> !v@[k],
        decreases v@.len() - i,
    {
        if v[i] {
            return true;
        }
        i = i + 1;
    }
    false
}

/// The installed editors, in their known order, from what was found on this
/// machine (`probes[i]` for the i-th known editor), followed by the
/// always-available reveal action.
pub fn detect(probes: &Vec<EditorProbe>, platform: Platform, reveal_icon_png: Option<Vec<u8>>) -> (r:
    Vec<Editor>)
    ensures
        editor_views(r@) == installed_editors(probe_views(probes@), platform, 9).push(
            reveal_entry(
                platform,
                match reveal_icon_png {
                    Some(b) => Some(b@),
                    None => None,
                },
            ),
        ),
{
    let defs = editor_defs();
    let mut out: Vec<Editor> = Vec::new();
    let mut i: usize = 0;
    let ghost ps = probe_views(probes@);
    proof {
        assert(editor_defs_spec().len() == 9);
        assert(defs@.map_values(|d: EditorDef| d@).len() == defs@.len());
        assert(editor_views(out@) =~= installed_editors(ps, platform, 0));
    }
    while i < defs.len()
        invariant
            i <= defs@.len() == 9,
            defs@.map_values(|d: EditorDef| d@) == editor_defs_spec(),
            ps == probe_views(probes@),
            editor_views(out@) == installed_editors(ps, platform, i as nat),
        decreases defs@.len() - i,
    {
        proof {
            assert(defs@.map_values(|d: EditorDef| d@)[i as int] == defs@[i as int]@);
        }
        let (found, bundle, icon) = if i < probes.len() {
            proof {
                assert(ps[i as int] == probes@[i as int]@);
            }
            let p = &probes[i];
            let bundle = platform == Platform::MacOs && p.bundle_found;
            (any_true(&p.cli_found), bundle, if bundle {
                icon_data_uri(&p.icon_png)
            } else {
                None
            })
        } else {
            proof {
                assert(!Seq::<bool>::empty().contains(true));
            }
            (false, false, None)
        };
        if found || bundle {
            let e = Editor {
                id: defs[i].id.clone(),
                name: defs[i].name.clone(),
                icon,
                is_reveal: false,
            };
            let ghost before = out@;
            out.push(e);
            proof {
                assert(editor_views(out@) =~= editor_views(before).push(e@));
            }
        }
        i = i + 1;
    }
    let name = match platform {
        Platform::MacOs => "Reveal in Finder",
        Platform::Windows => "Reveal in Explorer",
        Platform::Other => "Open folder",
    };
    let icon = if platform == Platform::MacOs {
        icon_data_uri(&reveal_icon_png)
    } else {
        None
    };
    let reveal = Editor { id: String::from_str("reveal"), name: String::from_str(name), icon, is_reveal: true };
    let ghost before = out@;
    out.push(reveal);
    proof {
        assert(editor_views(out@) =~= editor_views(before).push(reveal@));
    }
    out
}

/// A program to start, with its arguments.
#[derive(Debug)]
pub struct Launch {
    pub program: String,
    pub args: Vec<String>,
}

pub struct LaunchView {
    pub program: Seq<char>,
    pub args: Seq<Seq<char>>,
}

impl View for Launch {
    type V = LaunchView;

    open spec fn view(&self) -> LaunchView {
        LaunchView { program: self.program@, args: views(self.args@) }
    }
}

/// The program that shows a folder in the file manager on `platform`.
pub open spec fn reveal_program(platform: Platform) -> Seq<char> {
    match platform {
        Platform::MacOs => "open"@,
        Platform::Windows => "explorer"@,
        Platform::Other => "xdg-open"@,
    }
}

/// Revealing an existing path launches the platform's file manager with the
/// path as its only argument, whatever editors are installed: `open` on
/// macOS, `explorer` on Windows and `xdg-open` elsewhere.
pub proof fn lemma_reveal_launches_file_manager(path: Seq<char>, platform: Platform, ps: Seq<EditorProbeView>)
    ensures
        open_plan("reveal"@, path, true, platform, ps) == Ok::<LaunchView, Seq<char>>(
            LaunchView {
                program: if platform == Platform::MacOs {
                    "open"@
                } else if platform == Platform::Windows {
                    "explorer"@
                } else {
                    "xdg-open"@
                },
                args: seq![path],
            },
        ),
{
}

/// Index of the first known editor from `i` on with this id.
pub open spec fn find_def_from(id: Seq<char>, i: nat) -> Option<nat>
    decreases 9 - i,
{
    if i >= 9 {
        None
    } else if editor_defs_spec()[i as int].id == id {
        Some(i)
    } else {
        find_def_from(id, i + 1)
    }
}

/// Index of the first `true` among the first `n` of `s`.
pub open spec fn first_true_from(s: Seq<bool>, n: nat, k: nat) -> Option<nat>
    decreases n - k,
{
    if k >= n || k >= s.len() {
        None
    } else if s[k as int] {
        Some(k)
    } else {
        first_true_from(s, n, k + 1)
    }
}

/// How to open `path` with the editor `id`, or why it cannot be opened.
pub open spec fn open_plan(
    id: Seq<char>,
    path: Seq<char>,
    path_exists: bool,
    platform: Platform,
    ps: Seq<EditorProbeView>,
) -> Result<LaunchView, Seq<char>> {
    if !path_exists {
        Err("path does not exist: "@ + path)
    } else if id == "reveal"@ {
        Ok(LaunchView { program: reveal_program(platform), args: seq![path] })
    } else {
        match find_def_from(id, 0) {
            None => Err("unknown editor: "@ + id),
            Some(i) => {
                let d = editor_defs_spec()[i as int];
                let p = probe_at(ps, i as int);
                match first_true_from(p.cli_found, d.cli.len(), 0) {
                    Some(k) => Ok(LaunchView { program: d.cli[k as int], args: seq![path] }),
                    None => if platform == Platform::MacOs && d.mac_app is Some && p.bundle_found {
                        Ok(LaunchView { program: "open"@, args: seq!["-a"@, d.mac_app->0, path] })
                    } else {
                        Err(d.name + " is not available"@)
                    },
                }
            },
        }
    }
}

fn text_list(parts: &[&str]) -> (r: Vec<String>)
    ensures
        r@.len() == parts@.len(),
        forall|i: int| 0 <= i < parts@.len() ==> #[trigger] r@[i]@ == parts@[i]@,
{
    let mut r: Vec<String> = Vec::new();
    let mut i: usize = 0;
    while i < parts.len()
        invariant
            i <= parts@.len(),
            r@.len() == i,
            forall|k: int| 0 <= k < i ==> #[trigger] r@[k]@ == parts@[k]@,
        decreases parts@.len() - i,
    {
        r.push(String::from_str(parts[i]));
        i = i + 1;
    }
    r
}

/// How to open `path` in the editor identified by `id`: the reveal action,
/// the editor's first command found on PATH, or (on macOS) its application
/// bundle. `path_exists` tells whether `path` exists; `probes[i]` is what was
/// found for the i-th known editor.
pub fn open_in(
    id: &str,
    path: &str,
    path_exists: bool,
    platform: Platform,
    probes: &Vec<EditorProbe>,
) -> (r: Result<Launch, String>)
    ensures
        match (r, open_plan(id@, path@, path_exists, platform, probe_views(probes@))) {
            (Ok(l), Ok(lv)) => l@ == lv,
            (Err(e), Err(ev)) => e@ == ev,
            _ => false,
        },
{
    if !path_exists {
        return Err(concat_text("path does not exist: ", path));
    }
    if same_text(id, "reveal") {
        let program = match platform {
            Platform::MacOs => "open",
            Platform::Windows => "explorer",
            Platform::Other => "xdg-open",
        };
        let l = Launch { program: String::from_str(program), args: text_list(&[path]) };
        proof {
            assert(views(l.args@) =~= seq![path@]);
        }
        return Ok(l);
    }
    let defs = editor_defs();
    proof {
        assert(editor_defs_spec().len() == 9);
        assert(defs@.map_values(|d: EditorDef| d@).len() == defs@.len());
    }
    let mut i: usize = 0;
    while i < defs.len() && !same_text(defs[i].id.as_str(), id)
        invariant
            i <= defs@.len() == 9,
            defs@.map_values(|d: EditorDef| d@) == editor_defs_spec(),
            find_def_from(id@, 0) == find_def_from(id@, i as nat),
        decreases defs@.len() - i,
    {
        proof {
            assert(defs@.map_values(|d: EditorDef| d@)[i as int] == defs@[i as int]@);
        }
        i = i + 1;
    }
    if i == defs.len() {
        return Err(concat_text("unknown editor: ", id));
    }
    proof {
        assert(defs@.map_values(|d: EditorDef| d@)[i as int] == defs@[i as int]@);
    }
    let d = &defs[i];
    let empty: Vec<bool> = Vec::new();
    let (found, bundle) = if i < probes.len() {
        proof {
            assert(probe_views(probes@)[i as int] == probes@[i as int]@);
        }
        (&probes[i].cli_found, probes[i].bundle_found)
    } else {
        (&empty, false)
    };
    let mut k: usize = 0;
    while k < d.cli.len() && k < found.len() && !found[k]
        invariant
            k <= d.cli@.len(),
            first_true_from(found@, d.cli@.len() as nat, 0) == first_true_from(
                found@,
                d.cli@.len() as nat,
                k as nat,
            ),
        decreases d.cli@.len() - k,
    {
        k = k + 1;
    }
    if k < d.cli.len() && k < found.len() {
        proof {
            assert(views(d.cli@)[k as int] == d.cli@[k as int]@);
        }
        let l = Launch { program: d.cli[k].clone(), args: text_list(&[path]) };
        proof {
            assert(views(l.args@) =~= seq![path@]);
        }
        return Ok(l);
    }
    if platform == Platform::MacOs && bundle {
        match &d.mac_app {
            Some(app) => {
                let l = Launch { program: String::from_str("open"), args: text_list(&["-a", app.as_str(), path]) };
                proof {
                    assert(views(l.args@) =~= seq!["-a"@, app@, path@]);
                }
                return Ok(l);
            },
            None => {},
        }
    }
    Err(concat_text(d.name.as_str(), " is not available"))
}

} // verus!
