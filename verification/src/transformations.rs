//! Planning and validation of single transformations.
//!
//! Planning resolves every path a transformation reads and writes, checks the
//! platform tools it needs and expands its template strings. The file work
//! itself is carried out from the resulting [`Job`] outside the library.
use vstd::prelude::*;
use crate::config::{BrandConfig, FileType, FitStrategy, OutputFileType, Transformation};
use crate::error::{Error, ErrorView, unit_result_view};
use crate::paths::{join_path, joined, path_exists};
use crate::platform::PlatformCapabilities;
use crate::filter::tool_missing;
use crate::template::{expand, lemma_expand_errors, process_string_replacements};

verus! {

/// What a transformation is planned and checked against.
pub struct TransformationContext<'a> {
    /// The brand's source folder.
    pub source_dir: &'a str,
    /// The folder of assets shared by every brand.
    pub static_dir: &'a str,
    /// The folder that outputs are written under.
    pub output_dir: &'a str,
    pub brand_config: &'a BrandConfig,
    pub capabilities: &'a PlatformCapabilities,
}

/// A planned transformation: every path resolved and every template expanded.
#[derive(Debug, Clone)]
pub enum Job {
    Raster {
        input: String,
        output: String,
        output_file_type: OutputFileType,
        width: u32,
        height: u32,
        padding_pixels_width: Option<u32>,
        padding_pixels_height: Option<u32>,
        offset_x: Option<i32>,
        offset_y: Option<i32>,
        fit: FitStrategy,
    },
    Ico { input: String, output: String, sizes: Vec<u32> },
    Icns { input: String, output: String, sizes: Vec<u32> },
    AssetsCar { liquid_glass_icon: String, output: String, app_icon: String, icon: String },
    Copy { input: String, output: String },
    CopyPreprocess { input: String, output: String },
    CopyImageMac { input: String, output: String, dpi_bits: Option<u64> },
    DsStore {
        output: String,
        app_name: String,
        volume_name: String,
        background_image: String,
        volume_icon: String,
        window_position: String,
        window_size: String,
        app_icon_position: String,
        app_drop_link_position: String,
    },
}

/// The folder that a file type refers to.
pub open spec fn base_dir(file_type: FileType, source_dir: Seq<char>, static_dir: Seq<char>) -> Seq<
    char,
> {
    match file_type {
        FileType::Source => source_dir,
        FileType::Static => static_dir,
    }
}

/// The full path of a source file.
pub open spec fn resolved_path(
    file_type: FileType,
    input_path: Seq<char>,
    source_dir: Seq<char>,
    static_dir: Seq<char>,
) -> Seq<char> {
    joined(base_dir(file_type, source_dir, static_dir), input_path)
}

/// The full path of a source file, in a context.
pub open spec fn input_in(ctx: TransformationContext, file_type: FileType, input_path: Seq<char>) -> Seq<char> {
    resolved_path(file_type, input_path, ctx.source_dir@, ctx.static_dir@)
}

/// The full path of an output file, in a context.
pub open spec fn output_in(ctx: TransformationContext, output_path: Seq<char>) -> Seq<char> {
    joined(ctx.output_dir@, output_path)
}

/// The full paths of the source files that a transformation reads, in the
/// order in which they are checked.
pub open spec fn required_inputs(t: Transformation, ctx: TransformationContext) -> Seq<Seq<char>> {
    match t {
        Transformation::Raster { file_type, input_path, .. } => seq![input_in(ctx, file_type, input_path@)],
        Transformation::Ico { file_type, input_path, .. } => seq![input_in(ctx, file_type, input_path@)],
        Transformation::Icns { file_type, input_path, .. } => seq![input_in(ctx, file_type, input_path@)],
        Transformation::AssetsCar {
            liquid_glass_icon_file_type,
            liquid_glass_icon_path,
            app_icon_input,
            app_icon_file_type,
            icon_input,
            icon_file_type,
            ..
        } => seq![
            input_in(ctx, liquid_glass_icon_file_type, liquid_glass_icon_path@),
            input_in(ctx, app_icon_file_type, app_icon_input@),
            input_in(ctx, icon_file_type, icon_input@),
        ],
        Transformation::Copy { file_type, input_path, .. } => seq![input_in(ctx, file_type, input_path@)],
        Transformation::CopyPreprocess { file_type, input_path, .. } => seq![input_in(ctx, file_type, input_path@)],
        Transformation::CopyImageMac { file_type, input_path, .. } => seq![input_in(ctx, file_type, input_path@)],
        Transformation::DsStore {
            background_image,
            background_image_file_type,
            volume_icon,
            volume_icon_file_type,
            ..
        } => seq![
            input_in(ctx, background_image_file_type, background_image@),
            input_in(ctx, volume_icon_file_type, volume_icon@),
        ],
    }
}

/// The template fields of a `.DS_Store` transformation, in the order in
/// which they are expanded; empty for every other transformation.
pub open spec fn template_fields(t: Transformation) -> Seq<Seq<char>> {
    match t {
        Transformation::DsStore {
            app_name,
            volume_name,
            window_position,
            window_size,
            app_icon_position,
            app_drop_link_position,
            ..
        } => seq![
            app_name@,
            volume_name@,
            window_position@,
            window_size@,
            app_icon_position@,
            app_drop_link_position@,
        ],
        _ => Seq::empty(),
    }
}

/// The error of the first template in `ts`, from position `i` on, that does
/// not expand, if any.
pub open spec fn first_template_error_from(
    ts: Seq<Seq<char>>,
    i: int,
    strings: Map<Seq<char>, Seq<char>>,
) -> Option<ErrorView>
    decreases ts.len() - i,
{
    if i < 0 || i >= ts.len() {
        None
    } else {
        match expand(ts[i], strings) {
            Err(e) => Some(e),
            Ok(_) => first_template_error_from(ts, i + 1, strings),
        }
    }
}

/// The error of the first template in `ts` that does not expand, if any.
pub open spec fn first_template_error(ts: Seq<Seq<char>>, strings: Map<Seq<char>, Seq<char>>) -> Option<
    ErrorView,
> {
    first_template_error_from(ts, 0, strings)
}

/// Templates that expand do not decide the first template error.
proof fn lemma_template_prefix_ok(ts: Seq<Seq<char>>, strings: Map<Seq<char>, Seq<char>>, k: int)
    requires
        0 <= k <= ts.len(),
        forall|i: int| 0 <= i < k ==> expand(#[trigger] ts[i], strings) is Ok,
    ensures
        first_template_error(ts, strings) == first_template_error_from(ts, k, strings),
    decreases k,
{
    if k > 0 {
        lemma_template_prefix_ok(ts, strings, k - 1);
        assert(expand(ts[k - 1], strings) is Ok);
    }
}

/// The first platform tool that a transformation needs and the platform
/// lacks, as the error reports it.
pub open spec fn missing_tool_error(t: Transformation, caps: PlatformCapabilities) -> Option<ErrorView> {
    match t {
        Transformation::Icns { .. } => if !caps.has_iconutil {
            Some(ErrorView::PlatformToolUnavailable("iconutil (required for icns generation)"@))
        } else {
            None
        },
        Transformation::AssetsCar { .. } => if !caps.has_actool {
            Some(ErrorView::PlatformToolUnavailable("actool (required for Assets.car generation)"@))
        } else {
            None
        },
        Transformation::CopyImageMac { .. } => if !caps.has_sips {
            Some(
                ErrorView::PlatformToolUnavailable(
                    "sips (required for CopyImageMac transformation)"@,
                ),
            )
        } else {
            None
        },
        Transformation::DsStore { .. } => if !caps.has_sips {
            Some(ErrorView::PlatformToolUnavailable("sips (required for .DS_Store generation)"@))
        } else if !caps.has_hdiutil {
            Some(ErrorView::PlatformToolUnavailable("hdiutil (required for .DS_Store generation)"@))
        } else if !caps.has_iconutil {
            Some(
                ErrorView::PlatformToolUnavailable("iconutil (required for .DS_Store generation)"@),
            )
        } else {
            None
        },
        _ => None,
    }
}

/// The error that validation reports before it looks at the file system:
/// that of a template that does not expand.
pub open spec fn validation_error(t: Transformation, ctx: TransformationContext) -> Option<ErrorView> {
    first_template_error(template_fields(t), ctx.brand_config.strings@)
}

/// The error that execution reports before it looks at the file system: a
/// missing tool first, then a template that does not expand.
pub open spec fn execution_error(t: Transformation, ctx: TransformationContext) -> Option<ErrorView> {
    match missing_tool_error(t, *ctx.capabilities) {
        Some(e) => Some(e),
        None => validation_error(t, ctx),
    }
}

/// The text of a template's expansion.
pub open spec fn expanded(t: Seq<char>, strings: Map<Seq<char>, Seq<char>>) -> Seq<char> {
    match expand(t, strings) {
        Ok(s) => s,
        Err(_) => Seq::empty(),
    }
}

/// `job` is the plan of transformation `t` in context `ctx`.
pub open spec fn plans(t: Transformation, ctx: TransformationContext, job: Job) -> bool {
    match t {
        Transformation::Raster {
            file_type,
            input_path,
            output_path,
            output_file_type,
            width,
            height,
            padding_pixels_width,
            padding_pixels_height,
            offset_x,
            offset_y,
            fit,
        } => job matches Job::Raster {
            input: i,
            output: o,
            output_file_type: oft,
            width: w,
            height: h,
            padding_pixels_width: pw,
            padding_pixels_height: ph,
            offset_x: ox,
            offset_y: oy,
            fit: f,
        } && i@ == input_in(ctx, file_type, input_path@) && o@ == output_in(ctx, output_path@)
            && oft == output_file_type && w == width && h == height && pw == padding_pixels_width
            && ph == padding_pixels_height && ox == offset_x && oy == offset_y && f == fit,
        Transformation::Ico { file_type, input_path, output_path, sizes } => job matches Job::Ico {
            input: i,
            output: o,
            sizes: s,
        } && i@ == input_in(ctx, file_type, input_path@) && o@ == output_in(ctx, output_path@)
            && s@ == sizes@,
        Transformation::Icns { file_type, input_path, output_path, sizes } => job matches Job::Icns {
            input: i,
            output: o,
            sizes: s,
        } && i@ == input_in(ctx, file_type, input_path@) && o@ == output_in(ctx, output_path@)
            && s@ == sizes@,
        Transformation::AssetsCar {
            liquid_glass_icon_file_type,
            liquid_glass_icon_path,
            output_path,
            app_icon_input,
            app_icon_file_type,
            icon_input,
            icon_file_type,
        } => job matches Job::AssetsCar { liquid_glass_icon: l, output: o, app_icon: a, icon: i }
            && l@ == input_in(ctx, liquid_glass_icon_file_type, liquid_glass_icon_path@) && o@
            == output_in(ctx, output_path@) && a@ == input_in(ctx, app_icon_file_type, app_icon_input@)
            && i@ == input_in(ctx, icon_file_type, icon_input@),
        Transformation::Copy { file_type, input_path, output_path } => job matches Job::Copy {
            input: i,
            output: o,
        } && i@ == input_in(ctx, file_type, input_path@) && o@ == output_in(ctx, output_path@),
        Transformation::CopyPreprocess { file_type, input_path, output_path } => job matches Job::CopyPreprocess {
            input: i,
            output: o,
        } && i@ == input_in(ctx, file_type, input_path@) && o@ == output_in(ctx, output_path@),
        Transformation::CopyImageMac { file_type, input_path, output_path, dpi_bits } => job matches Job::CopyImageMac {
            input: i,
            output: o,
            dpi_bits: d,
        } && i@ == input_in(ctx, file_type, input_path@) && o@ == output_in(ctx, output_path@)
            && d == dpi_bits,
        Transformation::DsStore {
            output_path,
            app_name,
            volume_name,
            background_image,
            background_image_file_type,
            volume_icon,
            volume_icon_file_type,
            window_position,
            window_size,
            app_icon_position,
            app_drop_link_position,
        } => {
            let m = ctx.brand_config.strings@;
            job matches Job::DsStore {
                output: o,
                app_name: an,
                volume_name: vn,
                background_image: bi,
                volume_icon: vi,
                window_position: wp,
                window_size: ws,
                app_icon_position: ap,
                app_drop_link_position: dp,
            } && o@ == output_in(ctx, output_path@) && an@ == expanded(app_name@, m) && vn@
                == expanded(volume_name@, m) && bi@ == input_in(
                ctx,
                background_image_file_type,
                background_image@,
            ) && vi@ == input_in(ctx, volume_icon_file_type, volume_icon@) && wp@ == expanded(
                window_position@,
                m,
            ) && ws@ == expanded(window_size@, m) && ap@ == expanded(app_icon_position@, m) && dp@
                == expanded(app_drop_link_position@, m)
        },
    }
}

/// The outcome of a check for a source file: the full path when it exists,
/// else the error that names it.
pub fn input_path_outcome(full_path: String, exists: bool) -> (r: Result<String, Error>)
    ensures
        exists ==> r == Ok::<String, Error>(full_path),
        !exists ==> r == Err::<String, Error>(Error::FileNotFound(full_path)),
{
    if exists {
        Ok(full_path)
    } else {
        Err(Error::FileNotFound(full_path))
    }
}

/// The full path of a source file: `input_path` under the brand's source
/// folder or under the shared folder, as `file_type` says. Fails with
/// `FileNotFound` when nothing exists at that path.
pub fn resolve_input_path(
    file_type: &FileType,
    input_path: &str,
    source_dir: &str,
    static_dir: &str,
) -> (r: Result<String, Error>)
    ensures
        match r {
            Ok(p) => p@ == resolved_path(*file_type, input_path@, source_dir@, static_dir@),
            Err(e) => e@ == ErrorView::FileNotFound(
                resolved_path(*file_type, input_path@, source_dir@, static_dir@),
            ),
        },
{
    let base_dir = match file_type {
        FileType::Source => source_dir,
        FileType::Static => static_dir,
    };
    let full_path = join_path(base_dir, input_path);
    let exists = path_exists(full_path.as_str());
    input_path_outcome(full_path, exists)
}

/// The first position from `i` on at which `present` holds `false`.
pub open spec fn first_absent_from(present: Seq<bool>, i: int) -> Option<int>
    decreases present.len() - i,
{
    if i < 0 || i >= present.len() {
        None
    } else if !present[i] {
        Some(i)
    } else {
        first_absent_from(present, i + 1)
    }
}

/// The error for source files `inputs` whose existence is `present`, taken
/// in order: the first one missing is reported.
pub open spec fn missing_input_error(inputs: Seq<Seq<char>>, present: Seq<bool>) -> Option<ErrorView> {
    match first_absent_from(present, 0) {
        Some(i) => if 0 <= i < inputs.len() {
            Some(ErrorView::FileNotFound(inputs[i]))
        } else {
            None
        },
        None => None,
    }
}

/// How carrying out a transformation fails when its source files exist as
/// `present` says: a missing tool first, then a template that does not
/// expand, then the first missing source file.
pub open spec fn execution_failure(t: Transformation, ctx: TransformationContext, present: Seq<bool>) -> Option<
    ErrorView,
> {
    match execution_error(t, ctx) {
        Some(e) => Some(e),
        None => missing_input_error(required_inputs(t, ctx), present),
    }
}

/// How validating a transformation fails when its source files exist as
/// `present` says: a template that does not expand, then the first missing
/// source file.
pub open spec fn validation_failure(t: Transformation, ctx: TransformationContext, present: Seq<bool>) -> Option<
    ErrorView,
> {
    match validation_error(t, ctx) {
        Some(e) => Some(e),
        None => missing_input_error(required_inputs(t, ctx), present),
    }
}

/// `r` is the result of planning `t` when its source files exist as `present` says.
pub open spec fn planned_outcome(
    t: Transformation,
    ctx: TransformationContext,
    present: Seq<bool>,
    r: Result<Job, Error>,
) -> bool {
    match execution_failure(t, ctx, present) {
        Some(e) => r matches Err(e2) && e2@ == e,
        None => r matches Ok(job) && plans(t, ctx, job),
    }
}

/// A result that carries nothing, from an optional failure.
pub open spec fn failure_result(f: Option<ErrorView>) -> Result<(), ErrorView> {
    match f {
        Some(e) => Err(e),
        None => Ok(()),
    }
}

/// The strings of a list, as character sequences.
pub open spec fn paths_view(v: Vec<String>) -> Seq<Seq<char>> {
    v@.map_values(|s: String| s@)
}

/// The full path of a source file in a context.
fn input_path_in(ctx: &TransformationContext, file_type: &FileType, input_path: &String) -> (r: String)
    ensures
        r@ == input_in(*ctx, *file_type, input_path@),
{
    let base_dir = match file_type {
        FileType::Source => ctx.source_dir,
        FileType::Static => ctx.static_dir,
    };
    join_path(base_dir, input_path.as_str())
}

/// The full paths of the source files a transformation reads, in the order
/// in which they are checked.
pub fn required_input_paths(transformation: &Transformation, ctx: &TransformationContext) -> (r: Vec<
    String,
>)
    ensures
        paths_view(r) == required_inputs(*transformation, *ctx),
{
    let mut v: Vec<String> = Vec::new();
    match transformation {
        Transformation::Raster { file_type, input_path, .. }
        | Transformation::Ico { file_type, input_path, .. }
        | Transformation::Icns { file_type, input_path, .. }
        | Transformation::Copy { file_type, input_path, .. }
        | Transformation::CopyPreprocess { file_type, input_path, .. }
        | Transformation::CopyImageMac { file_type, input_path, .. } => {
            v.push(input_path_in(ctx, file_type, input_path));
        },
        Transformation::AssetsCar {
            liquid_glass_icon_file_type,
            liquid_glass_icon_path,
            app_icon_input,
            app_icon_file_type,
            icon_input,
            icon_file_type,
            ..
        } => {
            v.push(input_path_in(ctx, liquid_glass_icon_file_type, liquid_glass_icon_path));
            v.push(input_path_in(ctx, app_icon_file_type, app_icon_input));
            v.push(input_path_in(ctx, icon_file_type, icon_input));
        },
        Transformation::DsStore {
            background_image,
            background_image_file_type,
            volume_icon,
            volume_icon_file_type,
            ..
        } => {
            v.push(input_path_in(ctx, background_image_file_type, background_image));
            v.push(input_path_in(ctx, volume_icon_file_type, volume_icon));
        },
    }
    assert(paths_view(v) =~= required_inputs(*transformation, *ctx));
    v
}

/// Whether something exists at each of the paths, asked in order.
pub fn input_presence(paths: &Vec<String>) -> (r: Vec<bool>)
    ensures
        r@.len() == paths@.len(),
{
    let mut present: Vec<bool> = Vec::new();
    for k in 0..paths.len()
        invariant
            present@.len() == k,
    {
        present.push(path_exists(paths[k].as_str()));
    }
    present
}

/// The outcome of checking source files whose existence is `present`: the
/// first one missing is reported.
pub fn inputs_outcome(paths: &Vec<String>, present: &Vec<bool>) -> (r: Result<(), Error>)
    requires
        present@.len() == paths@.len(),
    ensures
        unit_result_view(r) == failure_result(missing_input_error(paths_view(*paths), present@)),
{
    let mut k: usize = 0;
    while k < present.len()
        invariant
            present@.len() == paths@.len(),
            k <= present@.len(),
            first_absent_from(present@, 0) == first_absent_from(present@, k as int),
        decreases present@.len() - k,
    {
        if !present[k] {
            let missing = paths[k].clone();
            assert(paths_view(*paths)[k as int] == paths@[k as int]@);
            return Err(Error::FileNotFound(missing));
        }
        k = k + 1;
    }
    Ok(())
}

/// Checks the platform tools that a transformation needs.
fn tool_check(transformation: &Transformation, caps: &PlatformCapabilities) -> (r: Result<(), Error>)
    ensures
        unit_result_view(r) == failure_result(missing_tool_error(*transformation, *caps)),
{
    match transformation {
        Transformation::Icns { .. } => if !caps.has_iconutil {
            return Err(
                Error::PlatformToolUnavailable("iconutil (required for icns generation)".to_owned()),
            );
        },
        Transformation::AssetsCar { .. } => if !caps.has_actool {
            return Err(
                Error::PlatformToolUnavailable(
                    "actool (required for Assets.car generation)".to_owned(),
                ),
            );
        },
        Transformation::CopyImageMac { .. } => if !caps.has_sips {
            return Err(
                Error::PlatformToolUnavailable(
                    "sips (required for CopyImageMac transformation)".to_owned(),
                ),
            );
        },
        Transformation::DsStore { .. } => {
            if !caps.has_sips {
                return Err(
                    Error::PlatformToolUnavailable(
                        "sips (required for .DS_Store generation)".to_owned(),
                    ),
                );
            }
            if !caps.has_hdiutil {
                return Err(
                    Error::PlatformToolUnavailable(
                        "hdiutil (required for .DS_Store generation)".to_owned(),
                    ),
                );
            }
            if !caps.has_iconutil {
                return Err(
                    Error::PlatformToolUnavailable(
                        "iconutil (required for .DS_Store generation)".to_owned(),
                    ),
                );
            }
        },
        _ => {},
    }
    Ok(())
}

/// The expansions of a transformation's template fields, in order.
fn expand_templates(transformation: &Transformation, ctx: &TransformationContext) -> (r: Result<
    Vec<String>,
    Error,
>)
    ensures
        match r {
            Ok(v) => validation_error(*transformation, *ctx) is None && v@.len() == template_fields(
                *transformation,
            ).len() && forall|k: int|
                0 <= k < v@.len() ==> expand(
                    template_fields(*transformation)[k],
                    ctx.brand_config.strings@,
                ) == Ok::<Seq<char>, ErrorView>((#[trigger] v@[k])@),
            Err(e) => validation_error(*transformation, *ctx) == Some(e@),
        },
{
    let ghost t = *transformation;
    let ghost ts = template_fields(t);
    let ghost m = ctx.brand_config.strings@;
    let mut v: Vec<String> = Vec::new();
    match transformation {
        Transformation::DsStore {
            app_name,
            volume_name,
            window_position,
            window_size,
            app_icon_position,
            app_drop_link_position,
            ..
        } => {
            v.push(expand_field(app_name, ctx, Ghost(ts), Ghost(0))?);
            v.push(expand_field(volume_name, ctx, Ghost(ts), Ghost(1))?);
            v.push(expand_field(window_position, ctx, Ghost(ts), Ghost(2))?);
            v.push(expand_field(window_size, ctx, Ghost(ts), Ghost(3))?);
            v.push(expand_field(app_icon_position, ctx, Ghost(ts), Ghost(4))?);
            v.push(expand_field(app_drop_link_position, ctx, Ghost(ts), Ghost(5))?);
            proof {
                lemma_template_prefix_ok(ts, m, 6);
            }
        },
        _ => {},
    }
    Ok(v)
}

/// Plans a transformation whose source files exist as `present` says: fails
/// with the first missing tool, then the first template that does not
/// expand, then the first missing source file; else resolves the paths it
/// reads and writes and expands its template strings.
pub fn plan(transformation: &Transformation, ctx: &TransformationContext, present: &Vec<bool>) -> (r:
    Result<Job, Error>)
    requires
        present@.len() == required_inputs(*transformation, *ctx).len(),
    ensures
        planned_outcome(*transformation, *ctx, present@, r),
{
    tool_check(transformation, ctx.capabilities)?;
    let texts = expand_templates(transformation, ctx)?;
    let paths = required_input_paths(transformation, ctx);
    inputs_outcome(&paths, present)?;
    assert(forall|k: int| 0 <= k < paths@.len() ==> paths_view(paths)[k] == (#[trigger] paths@[k])@);
    match transformation {
        Transformation::Raster {
            output_path,
            output_file_type,
            width,
            height,
            padding_pixels_width,
            padding_pixels_height,
            offset_x,
            offset_y,
            fit,
            ..
        } => Ok(
            Job::Raster {
                input: paths[0].clone(),
                output: join_path(ctx.output_dir, output_path.as_str()),
                output_file_type: *output_file_type,
                width: *width,
                height: *height,
                padding_pixels_width: *padding_pixels_width,
                padding_pixels_height: *padding_pixels_height,
                offset_x: *offset_x,
                offset_y: *offset_y,
                fit: *fit,
            },
        ),
        Transformation::Ico { output_path, sizes, .. } => Ok(
            Job::Ico {
                input: paths[0].clone(),
                output: join_path(ctx.output_dir, output_path.as_str()),
                sizes: copy_sizes(sizes),
            },
        ),
        Transformation::Icns { output_path, sizes, .. } => Ok(
            Job::Icns {
                input: paths[0].clone(),
                output: join_path(ctx.output_dir, output_path.as_str()),
                sizes: copy_sizes(sizes),
            },
        ),
        Transformation::AssetsCar { output_path, .. } => Ok(
            Job::AssetsCar {
                liquid_glass_icon: paths[0].clone(),
                output: join_path(ctx.output_dir, output_path.as_str()),
                app_icon: paths[1].clone(),
                icon: paths[2].clone(),
            },
        ),
        Transformation::Copy { output_path, .. } => Ok(
            Job::Copy {
                input: paths[0].clone(),
                output: join_path(ctx.output_dir, output_path.as_str()),
            },
        ),
        Transformation::CopyPreprocess { output_path, .. } => Ok(
            Job::CopyPreprocess {
                input: paths[0].clone(),
                output: join_path(ctx.output_dir, output_path.as_str()),
            },
        ),
        Transformation::CopyImageMac { output_path, dpi_bits, .. } => Ok(
            Job::CopyImageMac {
                input: paths[0].clone(),
                output: join_path(ctx.output_dir, output_path.as_str()),
                dpi_bits: *dpi_bits,
            },
        ),
        Transformation::DsStore { output_path, .. } => {
            assert(texts@.len() == 6);
            Ok(
                Job::DsStore {
                    output: join_path(ctx.output_dir, output_path.as_str()),
                    app_name: texts[0].clone(),
                    volume_name: texts[1].clone(),
                    background_image: paths[0].clone(),
                    volume_icon: paths[1].clone(),
                    window_position: texts[2].clone(),
                    window_size: texts[3].clone(),
                    app_icon_position: texts[4].clone(),
                    app_drop_link_position: texts[5].clone(),
                },
            )
        },
    }
}

/// Checks a transformation whose source files exist as `present` says:
/// fails with the first template that does not expand, then the first
/// missing source file.
pub fn check(transformation: &Transformation, ctx: &TransformationContext, present: &Vec<bool>) -> (r:
    Result<(), Error>)
    requires
        present@.len() == required_inputs(*transformation, *ctx).len(),
    ensures
        unit_result_view(r) == failure_result(validation_failure(*transformation, *ctx, present@)),
{
    expand_templates(transformation, ctx)?;
    let paths = required_input_paths(transformation, ctx);
    inputs_outcome(&paths, present)
}

/// Plans a transformation: checks the platform tools it needs, expands its
/// template strings, and resolves the paths it reads and writes, checking
/// that its source files exist. Fails with the first missing tool, then the
/// first template that does not expand, then the first source file that
/// does not exist.
pub fn execute(transformation: &Transformation, ctx: &TransformationContext) -> (r: Result<Job, Error>)
    ensures
        exists|present: Seq<bool>|
            present.len() == required_inputs(*transformation, *ctx).len() && planned_outcome(
                *transformation,
                *ctx,
                present,
                r,
            ),
{
    let paths = required_input_paths(transformation, ctx);
    let present = input_presence(&paths);
    let r = plan(transformation, ctx, &present);
    assert(present@.len() == required_inputs(*transformation, *ctx).len() && planned_outcome(
        *transformation,
        *ctx,
        present@,
        r,
    ));
    r
}

/// Checks a transformation without carrying it out: expands its template
/// strings and checks that every source file it reads exists. Platform tools
/// are not checked and nothing is written. Fails with the first template that
/// does not expand, then the first source file that does not exist.
pub fn validate(transformation: &Transformation, ctx: &TransformationContext) -> (r: Result<(), Error>)
    ensures
        exists|present: Seq<bool>|
            present.len() == required_inputs(*transformation, *ctx).len() && unit_result_view(r)
                == failure_result(validation_failure(*transformation, *ctx, present)),
{
    let paths = required_input_paths(transformation, ctx);
    let present = input_presence(&paths);
    let r = check(transformation, ctx, &present);
    assert(present@.len() == required_inputs(*transformation, *ctx).len() && unit_result_view(r)
        == failure_result(validation_failure(*transformation, *ctx, present@)));
    r
}

/// A copy of a list of sizes.
fn copy_sizes(sizes: &Vec<u32>) -> (r: Vec<u32>)
    ensures
        r@ == sizes@,
{
    let mut out: Vec<u32> = Vec::new();
    for i in 0..sizes.len()
        invariant
            out@ == sizes@.take(i as int),
    {
        out.push(sizes[i]);
        assert(sizes@.take(i + 1) =~= sizes@.take(i as int).push(sizes@[i as int]));
    }
    assert(sizes@.take(sizes@.len() as int) =~= sizes@);
    out
}

/// The expansion of one template field of a `.DS_Store` transformation; an
/// error is the first template error of the whole transformation.
fn expand_field(
    field: &String,
    ctx: &TransformationContext,
    Ghost(ts): Ghost<Seq<Seq<char>>>,
    Ghost(k): Ghost<int>,
) -> (r: Result<String, Error>)
    requires
        0 <= k < ts.len(),
        ts[k] == field@,
        forall|i: int| 0 <= i < k ==> expand(#[trigger] ts[i], ctx.brand_config.strings@) is Ok,
    ensures
        match r {
            Ok(s) => expand(field@, ctx.brand_config.strings@) == Ok::<Seq<char>, ErrorView>(s@),
            Err(e) => first_template_error(ts, ctx.brand_config.strings@) == Some(e@),
        },
{
    let r = process_string_replacements(field.as_str(), ctx.brand_config);
    proof {
        if r is Err {
            lemma_template_prefix_ok(ts, ctx.brand_config.strings@, k);
        }
    }
    r
}

/// A transformation fails on a missing tool exactly when the selection marks
/// it as needing a tool that the platform lacks.
pub proof fn lemma_missing_tool_agrees(t: Transformation, caps: PlatformCapabilities)
    ensures
        missing_tool_error(t, caps) is Some <==> tool_missing(t, caps),
{
}

/// With every tool it needs present, carrying out and validating a
/// transformation fail alike before the file system is consulted; both then
/// check the same source files.
pub proof fn lemma_execute_validate_agree(t: Transformation, ctx: TransformationContext)
    requires
        !tool_missing(t, *ctx.capabilities),
    ensures
        execution_error(t, ctx) == validation_error(t, ctx),
{
}

/// The errors of the first template that does not expand.
proof fn lemma_template_errors(ts: Seq<Seq<char>>, i: int, strings: Map<Seq<char>, Seq<char>>)
    ensures
        first_template_error_from(ts, i, strings) matches Some(e) ==> (e is MalformedTemplate
            || e is UnknownStringKey),
    decreases ts.len() - i,
{
    if 0 <= i < ts.len() {
        lemma_expand_errors(ts[i], 0, strings);
        lemma_template_errors(ts, i + 1, strings);
    }
}

/// Validation never reports a missing platform tool: it fails only on a
/// template that does not expand or on a missing source file.
pub proof fn lemma_validation_ignores_tools(t: Transformation, ctx: TransformationContext, present: Seq<bool>)
    ensures
        validation_error(t, ctx) matches Some(e) ==> (e is MalformedTemplate
            || e is UnknownStringKey),
        validation_failure(t, ctx, present) matches Some(e) ==> (e is MalformedTemplate
            || e is UnknownStringKey || e is FileNotFound),
{
    lemma_template_errors(template_fields(t), 0, ctx.brand_config.strings@);
}

/// The same transformation with another output path.
pub open spec fn with_output_path(t: Transformation, o: String) -> Transformation {
    match t {
        Transformation::Raster {
            file_type,
            input_path,
            output_file_type,
            width,
            height,
            padding_pixels_width,
            padding_pixels_height,
            offset_x,
            offset_y,
            fit,
            ..
        } => Transformation::Raster {
            file_type,
            input_path,
            output_path: o,
            output_file_type,
            width,
            height,
            padding_pixels_width,
            padding_pixels_height,
            offset_x,
            offset_y,
            fit,
        },
        Transformation::Ico { file_type, input_path, sizes, .. } => Transformation::Ico {
            file_type,
            input_path,
            output_path: o,
            sizes,
        },
        Transformation::Icns { file_type, input_path, sizes, .. } => Transformation::Icns {
            file_type,
            input_path,
            output_path: o,
            sizes,
        },
        Transformation::AssetsCar {
            liquid_glass_icon_file_type,
            liquid_glass_icon_path,
            app_icon_input,
            app_icon_file_type,
            icon_input,
            icon_file_type,
            ..
        } => Transformation::AssetsCar {
            liquid_glass_icon_file_type,
            liquid_glass_icon_path,
            output_path: o,
            app_icon_input,
            app_icon_file_type,
            icon_input,
            icon_file_type,
        },
        Transformation::Copy { file_type, input_path, .. } => Transformation::Copy {
            file_type,
            input_path,
            output_path: o,
        },
        Transformation::CopyPreprocess { file_type, input_path, .. } => Transformation::CopyPreprocess {
            file_type,
            input_path,
            output_path: o,
        },
        Transformation::CopyImageMac { file_type, input_path, dpi_bits, .. } => Transformation::CopyImageMac {
            file_type,
            input_path,
            output_path: o,
            dpi_bits,
        },
        Transformation::DsStore {
            app_name,
            volume_name,
            background_image,
            background_image_file_type,
            volume_icon,
            volume_icon_file_type,
            window_position,
            window_size,
            app_icon_position,
            app_drop_link_position,
            ..
        } => Transformation::DsStore {
            output_path: o,
            app_name,
            volume_name,
            background_image,
            background_image_file_type,
            volume_icon,
            volume_icon_file_type,
            window_position,
            window_size,
            app_icon_position,
            app_drop_link_position,
        },
    }
}

/// Two contexts with the same source folders and brand configuration.
pub open spec fn same_sources(ctx1: TransformationContext, ctx2: TransformationContext) -> bool {
    &&& ctx1.source_dir@ == ctx2.source_dir@
    &&& ctx1.static_dir@ == ctx2.static_dir@
    &&& *ctx1.brand_config == *ctx2.brand_config
}

/// A raster, icon, copy or preprocessed copy transformation needs no platform
/// tool: with the same source files present, carrying it out fails or plans
/// alike whatever tools the platform has.
pub proof fn lemma_tool_free_ignores_platform(
    t: Transformation,
    ctx1: TransformationContext,
    ctx2: TransformationContext,
    present: Seq<bool>,
)
    requires
        t is Raster || t is Ico || t is Copy || t is CopyPreprocess,
        same_sources(ctx1, ctx2),
        ctx1.output_dir@ == ctx2.output_dir@,
    ensures
        execution_failure(t, ctx1, present) == execution_failure(t, ctx2, present),
        forall|job: Job| #[trigger] plans(t, ctx1, job) == plans(t, ctx2, job),
{
}

/// Validation reads neither the platform's tools, nor the output folder,
/// nor the output path: with the same source files present it fails alike.
pub proof fn lemma_validation_ignores_platform_and_outputs(
    t: Transformation,
    output_path: String,
    ctx1: TransformationContext,
    ctx2: TransformationContext,
    present: Seq<bool>,
)
    requires
        same_sources(ctx1, ctx2),
    ensures
        validation_failure(t, ctx1, present) == validation_failure(
            with_output_path(t, output_path),
            ctx2,
            present,
        ),
{
    assert(template_fields(t) =~= template_fields(with_output_path(t, output_path)));
    assert(required_inputs(t, ctx1) =~= required_inputs(with_output_path(t, output_path), ctx2));
}

/// Validation reads only the source folders and the brand configuration:
/// two contexts that share them validate a transformation alike when the
/// same source files are present.
pub proof fn lemma_validation_same_sources(
    t: Transformation,
    ctx1: TransformationContext,
    ctx2: TransformationContext,
    present: Seq<bool>,
)
    requires
        same_sources(ctx1, ctx2),
    ensures
        validation_failure(t, ctx1, present) == validation_failure(t, ctx2, present),
        required_inputs(t, ctx1) == required_inputs(t, ctx2),
{
    assert(required_inputs(t, ctx1) =~= required_inputs(t, ctx2));
}

/// The folder that a file type names in a context: the brand's source
/// folder or the shared folder.
pub open spec fn folder_named(file_type: FileType, ctx: TransformationContext) -> Seq<char> {
    match file_type {
        FileType::Source => ctx.source_dir@,
        FileType::Static => ctx.static_dir@,
    }
}

/// Each source file of a transformation is looked for under the folder
/// named by its own file-type field, in the order of the fields.
pub proof fn lemma_inputs_under_their_own_folders(t: Transformation, ctx: TransformationContext)
    ensures
        match t {
            Transformation::Raster { file_type, input_path, .. } => required_inputs(t, ctx) == seq![
                joined(folder_named(file_type, ctx), input_path@),
            ],
            Transformation::Ico { file_type, input_path, .. } => required_inputs(t, ctx) == seq![
                joined(folder_named(file_type, ctx), input_path@),
            ],
            Transformation::Icns { file_type, input_path, .. } => required_inputs(t, ctx) == seq![
                joined(folder_named(file_type, ctx), input_path@),
            ],
            Transformation::AssetsCar {
                liquid_glass_icon_file_type,
                liquid_glass_icon_path,
                app_icon_input,
                app_icon_file_type,
                icon_input,
                icon_file_type,
                ..
            } => required_inputs(t, ctx) == seq![
                joined(folder_named(liquid_glass_icon_file_type, ctx), liquid_glass_icon_path@),
                joined(folder_named(app_icon_file_type, ctx), app_icon_input@),
                joined(folder_named(icon_file_type, ctx), icon_input@),
            ],
            Transformation::Copy { file_type, input_path, .. } => required_inputs(t, ctx) == seq![
                joined(folder_named(file_type, ctx), input_path@),
            ],
            Transformation::CopyPreprocess { file_type, input_path, .. } => required_inputs(t, ctx)
                == seq![joined(folder_named(file_type, ctx), input_path@)],
            Transformation::CopyImageMac { file_type, input_path, .. } => required_inputs(t, ctx)
                == seq![joined(folder_named(file_type, ctx), input_path@)],
            Transformation::DsStore {
                background_image,
                background_image_file_type,
                volume_icon,
                volume_icon_file_type,
                ..
            } => required_inputs(t, ctx) == seq![
                joined(folder_named(background_image_file_type, ctx), background_image@),
                joined(folder_named(volume_icon_file_type, ctx), volume_icon@),
            ],
        },
{
}

/// The source files that a planned job reads, in order.
pub open spec fn job_inputs(job: Job) -> Seq<Seq<char>> {
    match job {
        Job::Raster { input, .. } => seq![input@],
        Job::Ico { input, .. } => seq![input@],
        Job::Icns { input, .. } => seq![input@],
        Job::AssetsCar { liquid_glass_icon, app_icon, icon, .. } => seq![
            liquid_glass_icon@,
            app_icon@,
            icon@,
        ],
        Job::Copy { input, .. } => seq![input@],
        Job::CopyPreprocess { input, .. } => seq![input@],
        Job::CopyImageMac { input, .. } => seq![input@],
        Job::DsStore { background_image, volume_icon, .. } => seq![
            background_image@,
            volume_icon@,
        ],
    }
}

/// A plan reads exactly the source files whose existence is checked before
/// it is made: each under the folder named by its own file-type field.
pub proof fn lemma_plan_reads_checked_inputs(
    t: Transformation,
    ctx: TransformationContext,
    job: Job,
)
    requires
        plans(t, ctx, job),
    ensures
        job_inputs(job) == required_inputs(t, ctx),
{
    assert(job_inputs(job) =~= required_inputs(t, ctx));
}

/// With every platform tool present, validating and carrying out a
/// transformation fail alike when the same source files are present: a
/// failed validation means a failed execution with the same error, and an
/// execution that plans means a validation that passes.
pub proof fn lemma_validation_predicts_execution(
    t: Transformation,
    ctx: TransformationContext,
    present: Seq<bool>,
)
    requires
        ctx.capabilities.has_iconutil,
        ctx.capabilities.has_actool,
        ctx.capabilities.has_sips,
        ctx.capabilities.has_hdiutil,
    ensures
        validation_failure(t, ctx, present) == execution_failure(t, ctx, present),
{
}

} // verus!
