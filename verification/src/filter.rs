//! Selection of the transformations to run for a brand and a platform.
use vstd::prelude::*;
use crate::config::{Transformation, TransformationEntry, type_name_of};
use crate::platform::PlatformCapabilities;

verus! {

/// How many of the macOS-specific transformations to run.
#[derive(Debug, Clone, Copy, PartialEq, Eq, Structural)]
pub enum MacMode {
    /// Run none of them (`icns`, `assets-car`, `copy-image-mac`, `ds-store`).
    Off,
    /// Run `icns`, `assets-car` and `copy-image-mac`, but not `ds-store`.
    Simple,
    /// Run all of them.
    All,
}

/// Which transformations a run selects.
#[derive(Debug, Clone)]
pub struct FilterOptions {
    /// When present, only transformations of these type names run.
    pub only_types: Option<Vec<String>>,
    /// Which macOS-specific transformations run.
    pub mac_mode: MacMode,
    /// The brand being built, matched against each entry's `only` list.
    pub brand_name: Option<String>,
}

/// The strings of a list, as character sequences.
pub open spec fn names_view(v: Vec<String>) -> Seq<Seq<char>> {
    v@.map_values(|s: String| s@)
}

/// The strings of an optional list, as character sequences.
pub open spec fn opt_names_view(v: Option<Vec<String>>) -> Option<Seq<Seq<char>>> {
    match v {
        Some(l) => Some(names_view(l)),
        None => None,
    }
}

/// The view of an optional string.
pub open spec fn opt_string_view(v: Option<String>) -> Option<Seq<char>> {
    match v {
        Some(s) => Some(s@),
        None => None,
    }
}

impl FilterOptions {
    /// Options that select every transformation.
    pub fn new() -> (r: Self)
        ensures
            r.only_types is None,
            r.mac_mode == MacMode::All,
            r.brand_name is None,
    {
        FilterOptions { only_types: None, mac_mode: MacMode::All, brand_name: None }
    }

    /// The same options, restricted to the given type names.
    pub fn with_types(self, types: Vec<String>) -> (r: Self)
        ensures
            r.only_types == Some(types),
            r.mac_mode == self.mac_mode,
            r.brand_name == self.brand_name,
    {
        FilterOptions { only_types: Some(types), ..self }
    }

    /// The same options, with the given macOS mode.
    pub fn with_mac_mode(self, mode: MacMode) -> (r: Self)
        ensures
            r.only_types == self.only_types,
            r.mac_mode == mode,
            r.brand_name == self.brand_name,
    {
        FilterOptions { mac_mode: mode, ..self }
    }
}

/// The macOS mode of a run: all macOS transformations when types were
/// selected (the requested mode is then ignored); else the mode asked for;
/// else the simple mode on macOS and none elsewhere.
pub open spec fn chosen_mac_mode(requested: Option<MacMode>, types_selected: bool, on_macos: bool) -> MacMode {
    if types_selected {
        MacMode::All
    } else {
        match requested {
            Some(mode) => mode,
            None => if on_macos {
                MacMode::Simple
            } else {
                MacMode::Off
            },
        }
    }
}

/// The options of a run from the requested types and macOS mode.
pub fn make_filter_options(only: Option<Vec<String>>, mac: Option<MacMode>, on_macos: bool) -> (r:
    FilterOptions)
    ensures
        r.only_types == only,
        r.mac_mode == chosen_mac_mode(mac, only is Some, on_macos),
        r.brand_name is None,
{
    let types_selected = only.is_some();
    let filter_options = match only {
        Some(types) => FilterOptions::new().with_types(types),
        None => FilterOptions::new(),
    };
    let mac_mode = if types_selected {
        MacMode::All
    } else {
        match mac {
            Some(mode) => mode,
            None => if on_macos {
                MacMode::Simple
            } else {
                MacMode::Off
            },
        }
    };
    filter_options.with_mac_mode(mac_mode)
}

/// Whether a transformation needs macOS tooling.
pub open spec fn is_mac_specific(t: Transformation) -> bool {
    t is Icns || t is AssetsCar || t is CopyImageMac || t is DsStore
}

/// Whether the macOS mode lets a transformation run.
pub open spec fn mac_mode_allows(mode: MacMode, t: Transformation) -> bool {
    match mode {
        MacMode::Off => !is_mac_specific(t),
        MacMode::Simple => !(t is DsStore),
        MacMode::All => true,
    }
}

/// Whether an entry's brand list admits the brand: an entry without a list
/// applies to every brand, one with a list only to a named brand in it.
pub open spec fn brand_admitted(only: Option<Seq<Seq<char>>>, brand: Option<Seq<char>>) -> bool {
    match only {
        None => true,
        Some(list) => match brand {
            Some(b) => list.contains(b),
            None => false,
        },
    }
}

/// Whether a tool that the transformation needs is missing.
pub open spec fn tool_missing(t: Transformation, caps: PlatformCapabilities) -> bool {
    match t {
        Transformation::Icns { .. } => !caps.has_iconutil,
        Transformation::AssetsCar { .. } => !caps.has_actool,
        Transformation::CopyImageMac { .. } => !caps.has_sips,
        Transformation::DsStore { .. } => !(caps.has_sips && caps.has_hdiutil && caps.has_iconutil),
        _ => false,
    }
}

/// Whether an entry is kept under a macOS mode for a brand.
pub open spec fn entry_kept(e: TransformationEntry, mode: MacMode, brand: Option<Seq<char>>) -> bool {
    &&& brand_admitted(opt_names_view(e.only), brand)
    &&& mac_mode_allows(mode, e.transformation)
}

/// The transformations of `entries` kept under a macOS mode for a brand, in
/// order, each with whether a tool it needs is missing.
pub open spec fn kept_transformations(
    entries: Seq<TransformationEntry>,
    mode: MacMode,
    brand: Option<Seq<char>>,
    caps: PlatformCapabilities,
) -> Seq<(Transformation, bool)>
    decreases entries.len(),
{
    if entries.len() == 0 {
        Seq::empty()
    } else {
        let prev = kept_transformations(entries.drop_last(), mode, brand, caps);
        let e = entries.last();
        if entry_kept(e, mode, brand) {
            prev.push((e.transformation, tool_missing(e.transformation, caps)))
        } else {
            prev
        }
    }
}

/// Whether `name` is one of `list`.
pub fn contains_name(list: &Vec<String>, name: &String) -> (r: bool)
    ensures
        r == names_view(*list).contains(name@),
{
    let mut i: usize = 0;
    while i < list.len()
        invariant
            i <= list@.len(),
            forall|j: int| 0 <= j < i ==> (#[trigger] list@[j])@ != name@,
        decreases list@.len() - i,
    {
        if list[i] == *name {
            assert(names_view(*list)[i as int] == name@);
            return true;
        }
        i = i + 1;
    }
    assert forall|j: int| 0 <= j < names_view(*list).len() implies names_view(*list)[j] != name@ by {
        assert(list@[j]@ != name@);
    }
    false
}

/// Whether a tool that the transformation needs is missing.
pub fn needs_missing_tool(t: &Transformation, caps: &PlatformCapabilities) -> (r: bool)
    ensures
        r == tool_missing(*t, *caps),
{
    match t {
        Transformation::Icns { .. } => !caps.has_iconutil,
        Transformation::AssetsCar { .. } => !caps.has_actool,
        Transformation::CopyImageMac { .. } => !caps.has_sips,
        Transformation::DsStore { .. } => !(caps.has_sips && caps.has_hdiutil && caps.has_iconutil),
        _ => false,
    }
}

/// Whether the filter keeps an entry.
fn keeps_entry(e: &TransformationEntry, filter: &FilterOptions) -> (r: bool)
    ensures
        r == entry_kept(*e, filter.mac_mode, opt_string_view(filter.brand_name)),
{
    let brand_ok = match &e.only {
        None => true,
        Some(list) => match &filter.brand_name {
            Some(b) => contains_name(list, b),
            None => false,
        },
    };
    let mac_ok = match filter.mac_mode {
        MacMode::Off => match &e.transformation {
            Transformation::Icns { .. } | Transformation::AssetsCar { .. }
            | Transformation::CopyImageMac { .. } | Transformation::DsStore { .. } => false,
            _ => true,
        },
        MacMode::Simple => match &e.transformation {
            Transformation::DsStore { .. } => false,
            _ => true,
        },
        MacMode::All => true,
    };
    brand_ok && mac_ok
}

/// The transformations of `entries` that the filter keeps, in order, each
/// paired with whether a tool it needs is missing on this platform.
pub fn filter_transformations<'a>(
    entries: &'a Vec<TransformationEntry>,
    filter: &FilterOptions,
    caps: &PlatformCapabilities,
) -> (r: Vec<(&'a Transformation, bool)>)
    ensures
        r@.len() == kept_transformations(entries@, filter.mac_mode, opt_string_view(filter.brand_name), *caps).len(),
        forall|k: int|
            0 <= k < r@.len() ==> *(#[trigger] r@[k]).0 == kept_transformations(
                entries@,
                filter.mac_mode,
                opt_string_view(filter.brand_name),
                *caps,
            )[k].0 && r@[k].1 == kept_transformations(entries@, filter.mac_mode, opt_string_view(filter.brand_name), *caps)[k].1,
{
    let mut out: Vec<(&'a Transformation, bool)> = Vec::new();
    let mut i: usize = 0;
    while i < entries.len()
        invariant
            i <= entries@.len(),
            out@.len() == kept_transformations(entries@.take(i as int), filter.mac_mode, opt_string_view(filter.brand_name), *caps).len(),
            forall|k: int|
                0 <= k < out@.len() ==> *(#[trigger] out@[k]).0 == kept_transformations(
                    entries@.take(i as int),
                    filter.mac_mode,
                    opt_string_view(filter.brand_name),
                    *caps,
                )[k].0 && out@[k].1 == kept_transformations(
                    entries@.take(i as int),
                    filter.mac_mode,
                    opt_string_view(filter.brand_name),
                    *caps,
                )[k].1,
        decreases entries@.len() - i,
    {
        let e = &entries[i];
        assert(entries@.take(i + 1).drop_last() =~= entries@.take(i as int));
        assert(entries@.take(i + 1).last() == entries@[i as int]);
        if keeps_entry(e, filter) {
            let missing = needs_missing_tool(&e.transformation, caps);
            out.push((&e.transformation, missing));
        }
        i = i + 1;
    }
    assert(entries@.take(entries@.len() as int) =~= entries@);
    out
}

/// The macOS-specific transformations are exactly those of the types
/// `icns`, `assets-car`, `copy-image-mac` and `ds-store`.
pub proof fn lemma_mac_specific_types(t: Transformation)
    ensures
        is_mac_specific(t) <==> (type_name_of(t) == "icns"@ || type_name_of(t) == "assets-car"@
            || type_name_of(t) == "copy-image-mac"@ || type_name_of(t) == "ds-store"@),
{
    reveal_strlit("raster");
    reveal_strlit("ico");
    reveal_strlit("icns");
    reveal_strlit("assets-car");
    reveal_strlit("copy");
    reveal_strlit("copy-preprocess");
    reveal_strlit("copy-image-mac");
    reveal_strlit("ds-store");
    assert("icns"@.len() == 4 && "assets-car"@.len() == 10 && "copy-image-mac"@.len() == 14
        && "ds-store"@.len() == 8);
    match t {
        Transformation::Raster { .. } => assert("raster"@.len() == 6),
        Transformation::Ico { .. } => assert("ico"@.len() == 3),
        Transformation::Copy { .. } => assert("copy"@[0] != "icns"@[0]),
        Transformation::CopyPreprocess { .. } => assert("copy-preprocess"@.len() == 15),
        _ => {},
    }
}

/// What each macOS mode lets run, by type name: the off mode withholds
/// `icns`, `assets-car`, `copy-image-mac` and `ds-store`; the simple mode
/// withholds exactly `ds-store`; the full mode withholds nothing.
pub proof fn lemma_mac_modes_by_type_name(t: Transformation)
    ensures
        mac_mode_allows(MacMode::Off, t) <==> !(type_name_of(t) == "icns"@ || type_name_of(t)
            == "assets-car"@ || type_name_of(t) == "copy-image-mac"@ || type_name_of(t)
            == "ds-store"@),
        mac_mode_allows(MacMode::Simple, t) <==> type_name_of(t) != "ds-store"@,
        mac_mode_allows(MacMode::All, t),
{
    lemma_mac_specific_types(t);
    reveal_strlit("raster");
    reveal_strlit("ico");
    reveal_strlit("icns");
    reveal_strlit("assets-car");
    reveal_strlit("copy");
    reveal_strlit("copy-preprocess");
    reveal_strlit("copy-image-mac");
    reveal_strlit("ds-store");
    assert("ds-store"@.len() == 8);
    match t {
        Transformation::Raster { .. } => assert("raster"@.len() == 6),
        Transformation::Ico { .. } => assert("ico"@.len() == 3),
        Transformation::Icns { .. } => assert("icns"@.len() == 4),
        Transformation::AssetsCar { .. } => assert("assets-car"@.len() == 10),
        Transformation::Copy { .. } => assert("copy"@.len() == 4),
        Transformation::CopyPreprocess { .. } => assert("copy-preprocess"@.len() == 15),
        Transformation::CopyImageMac { .. } => assert("copy-image-mac"@.len() == 14),
        _ => {},
    }
}

/// Every kept transformation is one of the entries, allowed by the macOS
/// mode and admitted for the brand, and is marked exactly when it needs a
/// missing tool; the kept ones keep the order of the entries.
pub proof fn lemma_kept_are_admitted(
    entries: Seq<TransformationEntry>,
    mode: MacMode,
    brand: Option<Seq<char>>,
    caps: PlatformCapabilities,
)
    ensures
        kept_transformations(entries, mode, brand, caps).len() <= entries.len(),
        forall|k: int|
            0 <= k < kept_transformations(entries, mode, brand, caps).len() ==> {
                let p = #[trigger] kept_transformations(entries, mode, brand, caps)[k];
                &&& mac_mode_allows(mode, p.0)
                &&& p.1 == tool_missing(p.0, caps)
                &&& exists|i: int|
                    0 <= i < entries.len() && (#[trigger] entries[i]).transformation == p.0
                        && entry_kept(entries[i], mode, brand)
            },
    decreases entries.len(),
{
    if entries.len() > 0 {
        let prev = entries.drop_last();
        lemma_kept_are_admitted(prev, mode, brand, caps);
        let kept = kept_transformations(entries, mode, brand, caps);
        assert forall|k: int| 0 <= k < kept.len() implies {
            let p = #[trigger] kept[k];
            &&& mac_mode_allows(mode, p.0)
            &&& p.1 == tool_missing(p.0, caps)
            &&& exists|i: int|
                0 <= i < entries.len() && (#[trigger] entries[i]).transformation == p.0
                    && entry_kept(entries[i], mode, brand)
        } by {
            let kp = kept_transformations(prev, mode, brand, caps);
            if k < kp.len() {
                let p = kp[k];
                let i = choose|i: int|
                    0 <= i < prev.len() && (#[trigger] prev[i]).transformation == p.0
                        && entry_kept(prev[i], mode, brand);
                assert(entries[i] == prev[i]);
            } else {
                assert(entries[entries.len() - 1] == entries.last());
            }
        }
    }
}

/// With every macOS transformation allowed and no entry limited to brands,
/// every transformation is kept, in order.
pub proof fn lemma_keep_everything(
    entries: Seq<TransformationEntry>,
    brand: Option<Seq<char>>,
    caps: PlatformCapabilities,
)
    requires
        forall|i: int| 0 <= i < entries.len() ==> (#[trigger] entries[i]).only is None,
    ensures
        kept_transformations(entries, MacMode::All, brand, caps).len() == entries.len(),
        forall|i: int|
            0 <= i < entries.len() ==> (#[trigger] kept_transformations(
                entries,
                MacMode::All,
                brand,
                caps,
            )[i]).0 == entries[i].transformation,
    decreases entries.len(),
{
    if entries.len() > 0 {
        let prev = entries.drop_last();
        assert forall|i: int| 0 <= i < prev.len() implies (#[trigger] prev[i]).only is None by {
            assert(prev[i] == entries[i]);
        }
        lemma_keep_everything(prev, brand, caps);
        assert(entries.last() == entries[entries.len() - 1]);
    }
}

} // verus!
