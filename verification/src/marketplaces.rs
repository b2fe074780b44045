//! Where plugin marketplaces are installed.

use vstd::prelude::*;
use crate::path_style::PathStyle;
use crate::paths::{
    file_name, joined, parent, path_file_name, path_join, path_parent, PathText,
};
use crate::sort::{sort_stable, stable_sorted};
use crate::text::{opt_text, same_text, texts};

verus! {

/// The directory for installed marketplaces below the program's home.
pub const INSTALLED_MARKETPLACES_DIR: &'static str = ".tmp/marketplaces";

/// The directory for installed marketplaces.
pub fn marketplace_install_root(style: PathStyle, codex_home: &str) -> (result: String)
    ensures
        result@ == joined(style, codex_home@, ".tmp/marketplaces"@),
{
    path_join(style, codex_home, ".tmp/marketplaces")
}

/// A configured marketplace.
#[derive(Debug)]
pub struct MarketplaceConfig {
    pub name: String,
    /// Whether the entry has the form of a table at all.
    pub is_table: bool,
    /// Whether the name may be used.
    pub name_valid: bool,
    /// The kind of the source, where it is a text.
    pub source_type: Option<String>,
    /// The source, where it is a text.
    pub source: Option<String>,
}

/// Where a marketplace is: a local one where its source says, which must say
/// something; any other one below the directory for installed ones.
pub open spec fn configured_root(
    style: PathStyle,
    name: Seq<char>,
    source_type: Option<Seq<char>>,
    source: Option<Seq<char>>,
    default_install_root: Seq<char>,
) -> Option<Seq<char>> {
    if source_type == Some("local"@) {
        match source {
            Some(source) if source.len() > 0 => Some(source),
            _ => None,
        }
    } else {
        Some(joined(style, default_install_root, name))
    }
}

/// Where a marketplace is.
pub fn resolve_configured_marketplace_root(
    style: PathStyle,
    marketplace_name: &str,
    source_type: Option<&str>,
    source: Option<&str>,
    default_install_root: &str,
) -> (result: Option<String>)
    ensures
        opt_text(result) == configured_root(
            style,
            marketplace_name@,
            crate::text::opt_str(source_type),
            crate::text::opt_str(source),
            default_install_root@,
        ),
{
    let local = match source_type {
        Some(kind) => same_text(kind, "local"),
        None => false,
    };
    if local {
        match source {
            Some(source) => {
                if source.unicode_len() == 0 {
                    None
                } else {
                    Some(source.to_owned())
                }
            },
            None => None,
        }
    } else {
        Some(path_join(style, default_install_root, marketplace_name))
    }
}

/// The place of a marketplace, unless its entry is no table or its name may
/// not be used.
pub open spec fn admitted_root(
    style: PathStyle,
    config: MarketplaceConfig,
    codex_home: Seq<char>,
) -> Option<Seq<char>> {
    if config.is_table && config.name_valid {
        configured_root(
            style,
            config.name@,
            opt_text(config.source_type),
            opt_text(config.source),
            joined(style, codex_home, ".tmp/marketplaces"@),
        )
    } else {
        None
    }
}

/// The places of the marketplaces that are admitted, in the order given.
pub open spec fn candidate_roots(
    style: PathStyle,
    configs: Seq<MarketplaceConfig>,
    codex_home: Seq<char>,
) -> Seq<Seq<char>>
    decreases configs.len(),
{
    if configs.len() == 0 {
        Seq::empty()
    } else {
        let before = candidate_roots(style, configs.drop_last(), codex_home);
        match admitted_root(style, configs.last(), codex_home) {
            Some(root) => before.push(root),
            None => before,
        }
    }
}

/// The places at which marketplaces are looked for, in the order in which
/// they are configured.
pub fn candidate_marketplace_roots(
    style: PathStyle,
    configs: &Vec<MarketplaceConfig>,
    codex_home: &str,
) -> (result: Vec<String>)
    ensures
        texts(result@) == candidate_roots(style, configs@, codex_home@),
{
    let install_root = marketplace_install_root(style, codex_home);
    let mut result: Vec<String> = Vec::new();
    let mut i: usize = 0;
    assert(texts(result@) =~= candidate_roots(style, configs@.take(0), codex_home@));
    while i < configs.len()
        invariant
            i <= configs.len(),
            install_root@ == joined(style, codex_home@, ".tmp/marketplaces"@),
            texts(result@) == candidate_roots(style, configs@.take(i as int), codex_home@),
        decreases configs.len() - i,
    {
        let config = &configs[i];
        let ghost before = result@;
        assert(configs@.take(i + 1).drop_last() =~= configs@.take(i as int));
        if config.is_table && config.name_valid {
            let source_type = match &config.source_type {
                Some(text) => Some(text.as_str()),
                None => None,
            };
            let source = match &config.source {
                Some(text) => Some(text.as_str()),
                None => None,
            };
            if let Some(root) = resolve_configured_marketplace_root(
                style,
                config.name.as_str(),
                source_type,
                source,
                install_root.as_str(),
            ) {
                result.push(root);
                assert(texts(result@) =~= texts(before).push(root@));
            }
        }
        i += 1;
    }
    assert(configs@.take(i as int) =~= configs@);
    result
}

/// A place that was looked at.
#[derive(Debug)]
pub struct ExaminedRoot {
    /// Whether a manifest was found there.
    pub has_manifest: bool,
    /// The place as an absolute path, if it can be one.
    pub absolute: Option<String>,
}

/// The absolute paths of the places with a manifest.
pub open spec fn usable_roots(examined: Seq<ExaminedRoot>) -> Seq<Seq<char>>
    decreases examined.len(),
{
    if examined.len() == 0 {
        Seq::empty()
    } else {
        let before = usable_roots(examined.drop_last());
        let last = examined.last();
        if last.has_manifest && last.absolute is Some {
            before.push(last.absolute->0@)
        } else {
            before
        }
    }
}

/// Paths as values.
pub open spec fn path_views(paths: Seq<PathText>) -> Seq<Seq<char>> {
    paths.map_values(|path: PathText| path.text@)
}

/// One path comes before another, by their components.
pub open spec fn path_before(style: PathStyle, a: Seq<char>, b: Seq<char>) -> bool {
    crate::paths::list_lt(
        crate::paths::components(style, a),
        crate::paths::components(style, b),
    )
}

/// The absolute paths of the places with a manifest, in order.
pub fn marketplace_roots(style: PathStyle, examined: &Vec<ExaminedRoot>) -> (result: Vec<PathText>)
    ensures
        path_views(result@) == crate::sort::stable_sorted_by(
            usable_roots(examined@),
            |a: Seq<char>, b: Seq<char>| path_before(style, a, b),
        ),
        forall|i: int| 0 <= i < result@.len() ==> (#[trigger] result@[i]).style == style,
{
    let mut roots: Vec<PathText> = Vec::new();
    let mut i: usize = 0;
    assert(path_views(roots@) =~= usable_roots(examined@.take(0)));
    while i < examined.len()
        invariant
            i <= examined.len(),
            path_views(roots@) == usable_roots(examined@.take(i as int)),
            forall|k: int| 0 <= k < roots@.len() ==> (#[trigger] roots@[k]).style == style,
        decreases examined.len() - i,
    {
        let ghost before = roots@;
        assert(examined@.take(i + 1).drop_last() =~= examined@.take(i as int));
        if examined[i].has_manifest {
            if let Some(path) = &examined[i].absolute {
                let root = PathText { style, text: path.clone() };
                roots.push(root);
                assert(path_views(roots@) =~= path_views(before).push(path@));
            }
        }
        i += 1;
    }
    assert(examined@.take(i as int) =~= examined@);
    proof {
        let view = |path: PathText| path.text@;
        let before = |a: Seq<char>, b: Seq<char>| path_before(style, a, b);
        let fits = |path: PathText| path.style == style;
        crate::sort::lemma_stable_sorted_view(roots@, fits, view, before);
        assert(path_views(stable_sorted(roots@)) =~= stable_sorted(roots@).map_values(view));
    }
    sort_stable(roots)
}

/// What the user's configuration says of marketplaces.
#[derive(Debug)]
pub enum MarketplacesConfig {
    /// There is no such configuration, or nothing on marketplaces in it.
    Absent,
    /// It does not have the form of a table.
    Invalid,
    Table(Vec<MarketplaceConfig>),
}

/// The places at which the configured marketplaces are looked for.
pub fn configured_candidates(style: PathStyle, config: &MarketplacesConfig, codex_home: &str) -> (result:
    Vec<String>)
    ensures
        texts(result@) == (match *config {
            MarketplacesConfig::Table(configs) => candidate_roots(style, configs@, codex_home@),
            _ => Seq::empty(),
        }),
{
    match config {
        MarketplacesConfig::Table(configs) => candidate_marketplace_roots(style, configs, codex_home),
        _ => {
            let none: Vec<String> = Vec::new();
            assert(texts(none@) =~= Seq::<Seq<char>>::empty());
            none
        },
    }
}

/// The directories in which a bundled program's resources may be: its own
/// directory where that is called so, the one beside its own where it is the
/// launcher of an application, and one below its own.
pub open spec fn resource_dirs(style: PathStyle, exe: Seq<char>) -> Seq<Seq<char>> {
    match parent(style, exe) {
        Some(dir) => {
            let own = if file_name(style, dir) == Some("Resources"@) {
                seq![dir]
            } else {
                Seq::empty()
            };
            let beside = if file_name(style, dir) == Some("MacOS"@) && parent(style, dir) is Some {
                own.push(joined(style, parent(style, dir)->0, "Resources"@))
            } else {
                own
            };
            beside.push(joined(style, dir, "codex-resources"@))
        },
        None => Seq::empty(),
    }
}

/// The directories in which a bundled program's resources may be, in the
/// order in which they are tried. Where the program is not known there are
/// none.
pub fn bundled_resource_dirs(style: PathStyle, current_exe: Option<&str>) -> (result: Vec<String>)
    ensures
        texts(result@) == (match current_exe {
            Some(exe) => resource_dirs(style, exe@),
            None => Seq::empty(),
        }),
{
    let mut dirs: Vec<String> = Vec::new();
    assert(texts(dirs@) =~= Seq::<Seq<char>>::empty());
    let exe = match current_exe {
        Some(exe) => exe,
        None => {
            return dirs;
        },
    };
    let dir = match path_parent(style, exe) {
        Some(dir) => dir,
        None => {
            return dirs;
        },
    };
    let name = path_file_name(style, dir.as_str());
    let (in_resources, in_macos) = match &name {
        Some(name) => (same_text(name.as_str(), "Resources"), same_text(name.as_str(), "MacOS")),
        None => (false, false),
    };
    if in_resources {
        dirs.push(dir.clone());
        assert(texts(dirs@) =~= seq![dir@]);
    }
    let ghost own = texts(dirs@);
    if in_macos {
        if let Some(contents) = path_parent(style, dir.as_str()) {
            let beside = path_join(style, contents.as_str(), "Resources");
            dirs.push(beside);
            assert(texts(dirs@) =~= own.push(beside@));
        }
    }
    let ghost before = texts(dirs@);
    let below = path_join(style, dir.as_str(), "codex-resources");
    dirs.push(below);
    assert(texts(dirs@) =~= before.push(below@));
    dirs
}

/// The directory with the bundled plugins: below the first of the directories
/// for resources that is there.
pub fn bundled_plugins_root(style: PathStyle, dirs: &Vec<String>, is_dir: &Vec<bool>) -> (result:
    Option<String>)
    requires
        dirs@.len() == is_dir@.len(),
    ensures
        match result {
            Some(root) => exists|i: int|
                0 <= i < dirs@.len() && #[trigger] is_dir@[i] && root@ == joined(
                    style,
                    dirs@[i]@,
                    "plugins"@,
                ) && forall|j: int| 0 <= j < i ==> !(#[trigger] is_dir@[j]),
            None => forall|j: int| 0 <= j < dirs@.len() ==> !(#[trigger] is_dir@[j]),
        },
{
    let mut i: usize = 0;
    while i < dirs.len()
        invariant
            i <= dirs.len(),
            dirs@.len() == is_dir@.len(),
            forall|j: int| 0 <= j < i ==> !(#[trigger] is_dir@[j]),
        decreases dirs.len() - i,
    {
        if is_dir[i] {
            assert(is_dir@[i as int]);
            return Some(path_join(style, dirs[i].as_str(), "plugins"));
        }
        i += 1;
    }
    None
}

/// An entry of the directory with the bundled plugins counts only where it is
/// a directory.
pub fn bundled_marketplace_roots(style: PathStyle, entries: &Vec<(bool, ExaminedRoot)>) -> (result:
    Vec<PathText>)
    ensures
        path_views(result@) == crate::sort::stable_sorted_by(
            usable_roots(
                entries@.map_values(
                    |entry: (bool, ExaminedRoot)|
                        ExaminedRoot {
                            has_manifest: entry.0 && entry.1.has_manifest,
                            absolute: entry.1.absolute,
                        },
                ),
            ),
            |a: Seq<char>, b: Seq<char>| path_before(style, a, b),
        ),
        forall|i: int| 0 <= i < result@.len() ==> (#[trigger] result@[i]).style == style,
{
    let ghost shown = |entry: (bool, ExaminedRoot)|
        ExaminedRoot {
            has_manifest: entry.0 && entry.1.has_manifest,
            absolute: entry.1.absolute,
        };
    let mut examined: Vec<ExaminedRoot> = Vec::new();
    let mut i: usize = 0;
    while i < entries.len()
        invariant
            i <= entries.len(),
            shown == (|entry: (bool, ExaminedRoot)|
                ExaminedRoot {
                    has_manifest: entry.0 && entry.1.has_manifest,
                    absolute: entry.1.absolute,
                }),
            examined@ == entries@.take(i as int).map_values(shown),
        decreases entries.len() - i,
    {
        examined.push(
            ExaminedRoot {
                has_manifest: entries[i].0 && entries[i].1.has_manifest,
                absolute: entries[i].1.absolute.clone(),
            },
        );
        i += 1;
        assert(examined@ =~= entries@.take(i as int).map_values(shown));
    }
    assert(entries@.take(i as int) =~= entries@);
    marketplace_roots(style, &examined)
}

/// A local marketplace is where its source says, and nowhere where that says
/// nothing; one of any other kind is below the directory for installed ones,
/// whatever its source says.
pub proof fn lemma_where_marketplaces_are(
    style: PathStyle,
    name: Seq<char>,
    kind: Option<Seq<char>>,
    source: Option<Seq<char>>,
    install_root: Seq<char>,
)
    ensures
        ({
            let root = configured_root(style, name, kind, source, install_root);
            &&& kind == Some("local"@) ==> (root is Some <==> source is Some && source->0.len() > 0)
            &&& kind == Some("local"@) && root is Some ==> root == source
            &&& kind != Some("local"@) ==> root == Some(joined(style, install_root, name))
        }),
{
}

/// One more configured marketplace adds its place behind the others where its
/// entry is a table, its name may be used and it has a place; else nothing.
pub proof fn lemma_one_more_marketplace(
    style: PathStyle,
    configs: Seq<MarketplaceConfig>,
    config: MarketplaceConfig,
    codex_home: Seq<char>,
)
    ensures
        candidate_roots(style, Seq::empty(), codex_home).len() == 0,
        ({
            let before = candidate_roots(style, configs, codex_home);
            let after = candidate_roots(style, configs.push(config), codex_home);
            let root = configured_root(
                style,
                config.name@,
                opt_text(config.source_type),
                opt_text(config.source),
                joined(style, codex_home, ".tmp/marketplaces"@),
            );
            &&& config.is_table && config.name_valid && root is Some ==> after == before.push(
                root->0,
            )
            &&& !config.is_table || !config.name_valid || root is None ==> after == before
        }),
{
    assert(configs.push(config).drop_last() =~= configs);
}

/// One more place that was looked at adds its absolute path behind the others
/// where it has a manifest and such a path; else nothing.
pub proof fn lemma_one_more_place(examined: Seq<ExaminedRoot>, place: ExaminedRoot)
    ensures
        usable_roots(Seq::empty()).len() == 0,
        place.has_manifest && place.absolute is Some ==> usable_roots(examined.push(place))
            == usable_roots(examined).push(place.absolute->0@),
        !place.has_manifest || place.absolute is None ==> usable_roots(examined.push(place))
            == usable_roots(examined),
{
    assert(examined.push(place).drop_last() =~= examined);
}

/// The resources of a program may be in its own directory where that is called
/// `Resources`, in the `Resources` beside its own where that is called `MacOS`,
/// and in any case in the `codex-resources` below its own, tried last.
pub proof fn lemma_where_resources_are(style: PathStyle, exe: Seq<char>)
    ensures
        parent(style, exe) is None ==> resource_dirs(style, exe).len() == 0,
        parent(style, exe) is Some ==> {
            let dir = parent(style, exe)->0;
            let dirs = resource_dirs(style, exe);
            &&& dirs.len() > 0
            &&& dirs.last() == joined(style, dir, "codex-resources"@)
            &&& file_name(style, dir) == Some("Resources"@) ==> dirs.len() == 2 && dirs[0] == dir
            &&& file_name(style, dir) == Some("MacOS"@) && parent(style, dir) is Some
                ==> dirs.len() == 2 && dirs[0] == joined(
                style,
                parent(style, dir)->0,
                "Resources"@,
            )
            &&& file_name(style, dir) != Some("Resources"@) && (file_name(style, dir) != Some(
                "MacOS"@,
            ) || parent(style, dir) is None) ==> dirs.len() == 1
        },
{
    reveal_strlit("Resources");
    reveal_strlit("MacOS");
    assert("Resources"@.len() == 9);
    assert("MacOS"@.len() == 5);
}

/// Paths are ordered by their components, one by one.
pub proof fn lemma_order_of_paths(style: PathStyle, a: Seq<char>, b: Seq<char>)
    ensures
        path_before(style, a, b) <==> crate::paths::list_lt(
            crate::paths::components(style, a),
            crate::paths::components(style, b),
        ),
        crate::paths::components(style, a) == crate::paths::components(style, b)
            ==> path_before(style, a, b) == path_before(style, b, a),
{
}

} // verus!
