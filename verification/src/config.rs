//! The configuration model: transformations and brand configuration.
use vstd::prelude::*;

verus! {

/// Where the source asset of a transformation lives.
#[derive(Debug, Clone, Copy, PartialEq, Eq, Structural)]
pub enum FileType {
    /// The brand's own source folder.
    Source,
    /// The folder of assets shared by every brand.
    Static,
}

/// Raster format of an output image.
#[derive(Debug, Clone, Copy, PartialEq, Eq, Structural)]
pub enum OutputFileType {
    Png,
    Jpg,
    Bmp,
    Tiff,
    Gif,
}

/// How a raster source is scaled into its output box.
#[derive(Debug, Clone, Copy, PartialEq, Eq, Structural)]
pub enum FitStrategy {
    Fill,
    Cover,
    Contain,
    ScaleDown,
}

impl Default for FitStrategy {
    /// The default strategy keeps the whole source visible.
    fn default() -> (r: Self)
        ensures
            r == FitStrategy::Contain,
    {
        FitStrategy::Contain
    }
}

} // verus!

verus! {

/// One transformation of source assets into an output file.
///
/// `dpi_bits` of `CopyImageMac` holds the bit pattern (as `f64::to_bits`
/// gives it) of the resolution to stamp on the copy; the library only carries
/// it through to the tool that applies it.
#[derive(Debug, Clone)]
pub enum Transformation {
    Raster {
        file_type: FileType,
        input_path: String,
        output_path: String,
        output_file_type: OutputFileType,
        width: u32,
        height: u32,
        padding_pixels_width: Option<u32>,
        padding_pixels_height: Option<u32>,
        offset_x: Option<i32>,
        offset_y: Option<i32>,
        fit: FitStrategy,
    },
    Ico { file_type: FileType, input_path: String, output_path: String, sizes: Vec<u32> },
    Icns { file_type: FileType, input_path: String, output_path: String, sizes: Vec<u32> },
    AssetsCar {
        liquid_glass_icon_file_type: FileType,
        liquid_glass_icon_path: String,
        output_path: String,
        app_icon_input: String,
        app_icon_file_type: FileType,
        icon_input: String,
        icon_file_type: FileType,
    },
    Copy { file_type: FileType, input_path: String, output_path: String },
    CopyPreprocess { file_type: FileType, input_path: String, output_path: String },
    CopyImageMac {
        file_type: FileType,
        input_path: String,
        output_path: String,
        dpi_bits: Option<u64>,
    },
    DsStore {
        output_path: String,
        app_name: String,
        volume_name: String,
        background_image: String,
        background_image_file_type: FileType,
        volume_icon: String,
        volume_icon_file_type: FileType,
        window_position: String,
        window_size: String,
        app_icon_position: String,
        app_drop_link_position: String,
    },
}

/// The output path of a transformation, relative to the output folder.
pub open spec fn output_path_of(t: Transformation) -> Seq<char> {
    match t {
        Transformation::Raster { output_path, .. } => output_path@,
        Transformation::Ico { output_path, .. } => output_path@,
        Transformation::Icns { output_path, .. } => output_path@,
        Transformation::AssetsCar { output_path, .. } => output_path@,
        Transformation::Copy { output_path, .. } => output_path@,
        Transformation::CopyPreprocess { output_path, .. } => output_path@,
        Transformation::CopyImageMac { output_path, .. } => output_path@,
        Transformation::DsStore { output_path, .. } => output_path@,
    }
}

/// The name under which a transformation is selected and reported.
pub open spec fn type_name_of(t: Transformation) -> Seq<char> {
    match t {
        Transformation::Raster { .. } => "raster"@,
        Transformation::Ico { .. } => "ico"@,
        Transformation::Icns { .. } => "icns"@,
        Transformation::AssetsCar { .. } => "assets-car"@,
        Transformation::Copy { .. } => "copy"@,
        Transformation::CopyPreprocess { .. } => "copy-preprocess"@,
        Transformation::CopyImageMac { .. } => "copy-image-mac"@,
        Transformation::DsStore { .. } => "ds-store"@,
    }
}

impl Transformation {
    /// The output path, relative to the output folder.
    pub fn output_path(&self) -> (r: &str)
        ensures
            r@ == output_path_of(*self),
    {
        match self {
            Transformation::Raster { output_path, .. } => output_path.as_str(),
            Transformation::Ico { output_path, .. } => output_path.as_str(),
            Transformation::Icns { output_path, .. } => output_path.as_str(),
            Transformation::AssetsCar { output_path, .. } => output_path.as_str(),
            Transformation::Copy { output_path, .. } => output_path.as_str(),
            Transformation::CopyPreprocess { output_path, .. } => output_path.as_str(),
            Transformation::CopyImageMac { output_path, .. } => output_path.as_str(),
            Transformation::DsStore { output_path, .. } => output_path.as_str(),
        }
    }

    /// The type name of the transformation, as the configuration spells it.
    pub fn transformation_type(&self) -> (r: &str)
        ensures
            r@ == type_name_of(*self),
    {
        match self {
            Transformation::Raster { .. } => "raster",
            Transformation::Ico { .. } => "ico",
            Transformation::Icns { .. } => "icns",
            Transformation::AssetsCar { .. } => "assets-car",
            Transformation::Copy { .. } => "copy",
            Transformation::CopyPreprocess { .. } => "copy-preprocess",
            Transformation::CopyImageMac { .. } => "copy-image-mac",
            Transformation::DsStore { .. } => "ds-store",
        }
    }
}

/// A transformation together with the brands it is limited to.
#[derive(Debug, Clone)]
pub struct TransformationEntry {
    /// When present, the transformation applies only to the brands named here.
    pub only: Option<Vec<String>>,
    pub transformation: Transformation,
}

/// The top-level configuration.
#[derive(Debug, Clone)]
pub struct Config {
    /// Path of the brand configuration, relative to the brand's source folder.
    pub brand_config_path: String,
    pub transformations: Vec<TransformationEntry>,
}

} // verus!

verus! {

/// A table of named strings, viewed as a map from name to value.
///
/// Entries are kept in insertion order; a later entry for a name overrides an
/// earlier one.
#[derive(Debug, Clone)]
pub struct StringTable {
    entries: Vec<(String, String)>,
}

/// The map that a list of entries stands for: later entries override earlier ones.
pub open spec fn entries_map(s: Seq<(String, String)>) -> Map<Seq<char>, Seq<char>>
    decreases s.len(),
{
    if s.len() == 0 {
        Map::empty()
    } else {
        entries_map(s.drop_last()).insert(s.last().0@, s.last().1@)
    }
}

impl View for StringTable {
    type V = Map<Seq<char>, Seq<char>>;

    closed spec fn view(&self) -> Map<Seq<char>, Seq<char>> {
        entries_map(self.entries@)
    }
}

/// Entries past position `i` that do not name `key` do not change what the
/// table holds for `key`.
proof fn lemma_entries_map_suffix(s: Seq<(String, String)>, i: int, key: Seq<char>)
    requires
        0 <= i <= s.len(),
        forall|j: int| i <= j < s.len() ==> (#[trigger] s[j]).0@ != key,
    ensures
        entries_map(s).contains_key(key) == entries_map(s.take(i)).contains_key(key),
        entries_map(s).contains_key(key) ==> entries_map(s)[key] == entries_map(s.take(i))[key],
    decreases s.len() - i,
{
    if i == s.len() {
        assert(s.take(i) =~= s);
    } else {
        let t = s.drop_last();
        assert(s.last() == s[s.len() - 1]);
        assert(forall|j: int| i <= j < t.len() ==> t[j] == s[j]);
        lemma_entries_map_suffix(t, i, key);
        assert(t.take(i) =~= s.take(i));
    }
}

impl StringTable {
    /// An empty table.
    pub fn new() -> (r: Self)
        ensures
            r@ == Map::<Seq<char>, Seq<char>>::empty(),
    {
        StringTable { entries: Vec::new() }
    }

    /// Sets `key` to `value`, replacing any earlier value.
    pub fn insert(&mut self, key: String, value: String)
        ensures
            final(self)@ == old(self)@.insert(key@, value@),
    {
        let ghost before = self.entries@;
        self.entries.push((key, value));
        assert(self.entries@.drop_last() =~= before);
    }

    /// The entries of the table in insertion order; a later entry for a name
    /// overrides an earlier one.
    pub fn pairs(&self) -> (r: &Vec<(String, String)>)
        ensures
            entries_map(r@) == self@,
    {
        &self.entries
    }

    /// The value stored for `key`, if any.
    pub fn get(&self, key: &str) -> (r: Option<&String>)
        ensures
            match r {
                Some(v) => self@.contains_key(key@) && self@[key@] == v@,
                None => !self@.contains_key(key@),
            },
    {
        let wanted = key.to_owned();
        let mut i = self.entries.len();
        while i > 0
            invariant
                i <= self.entries@.len(),
                wanted@ == key@,
                forall|j: int| i <= j < self.entries@.len() ==> (#[trigger] self.entries@[j]).0@ != key@,
            decreases i,
        {
            i = i - 1;
            if self.entries[i].0 == wanted {
                let ghost s = self.entries@;
                proof {
                    lemma_entries_map_suffix(s, i + 1, key@);
                    let p = s.take(i + 1);
                    assert(p.drop_last() =~= s.take(i as int));
                    assert(p.last() == s[i as int]);
                }
                return Some(&self.entries[i].1);
            }
        }
        proof {
            lemma_entries_map_suffix(self.entries@, 0, key@);
            assert(self.entries@.take(0) =~= Seq::<(String, String)>::empty());
        }
        None
    }
}

/// What a table holds for a name after that name was set is the value it
/// was set to; other names keep their values.
pub proof fn lemma_table_read_after_write(
    before: StringTable,
    after: StringTable,
    key: Seq<char>,
    value: Seq<char>,
    other: Seq<char>,
)
    requires
        after@ == before@.insert(key, value),
        other != key,
    ensures
        after@.contains_key(key),
        after@[key] == value,
        after@.contains_key(other) == before@.contains_key(other),
        before@.contains_key(other) ==> after@[other] == before@[other],
{
}

/// Per-brand configuration: template strings and environment values.
#[derive(Debug, Clone)]
pub struct BrandConfig {
    /// Values substituted for `{{#str key}}` in templates.
    pub strings: StringTable,
    /// Environment values, such as the brand `name`.
    pub env: StringTable,
}

impl Default for BrandConfig {
    /// A brand configuration with no strings and no environment values.
    fn default() -> (r: Self)
        ensures
            r.strings@ == Map::<Seq<char>, Seq<char>>::empty(),
            r.env@ == Map::<Seq<char>, Seq<char>>::empty(),
    {
        BrandConfig { strings: StringTable::new(), env: StringTable::new() }
    }
}

} // verus!
