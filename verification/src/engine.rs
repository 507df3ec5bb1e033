//! The bookkeeping of a generation run.
//!
//! A run selects the transformations of a configuration for a brand and a
//! platform, then hands them out one at a time: each is either skipped or
//! given to the caller to carry out, whose outcome is recorded. When all are
//! done the run reports its result.
use vstd::prelude::*;
use crate::config::{BrandConfig, Config, Transformation, type_name_of};
use crate::error::{Error, ErrorView, unit_result_view};
use crate::filter::{
    FilterOptions,
    MacMode,
    contains_name,
    filter_transformations,
    kept_transformations,
    names_view,
    opt_names_view,
    opt_string_view,
};
use crate::platform::PlatformCapabilities;
use crate::transformations::{
    TransformationContext,
    failure_result,
    lemma_validation_same_sources,
    required_inputs,
    same_sources,
    validate,
    validation_failure,
};

verus! {

/// The folders of one brand's generation.
#[derive(Debug, Clone)]
pub struct GeneratorPaths {
    /// The brand's source folder.
    pub source_dir: String,
    /// The folder of assets shared by every brand.
    pub static_dir: String,
    /// The folder that the brand's outputs are written under.
    pub output_dir: String,
}

/// A platform tool whose absence is announced before a run.
#[derive(Debug, Clone, Copy, PartialEq, Eq, Structural)]
pub enum MissingTool {
    Iconutil,
    Actool,
}

/// The tools announced as missing before a run: none when only validating,
/// else `iconutil` and then `actool`, each when absent.
pub open spec fn tool_warnings(caps: PlatformCapabilities, validate_only: bool) -> Seq<MissingTool> {
    if validate_only {
        Seq::empty()
    } else {
        (if caps.has_iconutil {
            Seq::empty()
        } else {
            seq![MissingTool::Iconutil]
        }) + (if caps.has_actool {
            Seq::empty()
        } else {
            seq![MissingTool::Actool]
        })
    }
}

/// The tools to announce as missing before a run.
pub fn missing_tool_warnings(caps: &PlatformCapabilities, validate_only: bool) -> (r: Vec<
    MissingTool,
>)
    ensures
        r@ == tool_warnings(*caps, validate_only),
{
    let mut out: Vec<MissingTool> = Vec::new();
    if !validate_only {
        if !caps.has_iconutil {
            out.push(MissingTool::Iconutil);
        }
        if !caps.has_actool {
            out.push(MissingTool::Actool);
        }
    }
    assert(out@ =~= tool_warnings(*caps, validate_only));
    out
}

/// The macOS mode a run uses: all macOS transformations when validating.
pub open spec fn effective_mode(mode: MacMode, validate_only: bool) -> MacMode {
    if validate_only {
        MacMode::All
    } else {
        mode
    }
}

/// The brand name that a brand configuration gives: its `name` value.
pub open spec fn env_brand_name(env: Map<Seq<char>, Seq<char>>) -> Option<Seq<char>> {
    if env.contains_key("name"@) {
        Some(env["name"@])
    } else {
        None
    }
}

/// A copy of a list of names.
fn copy_names(v: &Vec<String>) -> (r: Vec<String>)
    ensures
        names_view(r) == names_view(*v),
{
    let mut out: Vec<String> = Vec::new();
    for i in 0..v.len()
        invariant
            out@.len() == i,
            forall|k: int| 0 <= k < i ==> (#[trigger] out@[k])@ == v@[k]@,
    {
        out.push(v[i].clone());
    }
    assert(names_view(out) =~= names_view(*v));
    out
}

/// The filter that a run applies: the given type selection and macOS mode
/// (all macOS transformations when only validating) and the brand's name.
pub fn effective_filter(
    filter_options: &FilterOptions,
    brand_config: &BrandConfig,
    validate_only: bool,
) -> (r: FilterOptions)
    ensures
        opt_names_view(r.only_types) == opt_names_view(filter_options.only_types),
        r.mac_mode == effective_mode(filter_options.mac_mode, validate_only),
        opt_string_view(r.brand_name) == env_brand_name(brand_config.env@),
{
    let only_types = match &filter_options.only_types {
        Some(types) => Some(copy_names(types)),
        None => None,
    };
    let mac_mode = if validate_only {
        MacMode::All
    } else {
        filter_options.mac_mode
    };
    let brand_name = match brand_config.env.get("name") {
        Some(name) => Some(name.clone()),
        None => None,
    };
    FilterOptions { only_types, mac_mode, brand_name }
}

/// What a run does with a selected transformation.
#[derive(Debug, Clone, Copy, PartialEq, Eq, Structural)]
pub enum Decision {
    /// Skip it: a tool it needs is missing (never when only validating).
    SkipMissingTool,
    /// Skip it: its type is not among the selected types.
    SkipUnselected,
    /// Carry it out (or validate it).
    Process,
}

/// What a run does with a selected transformation, given whether a tool it
/// needs is missing.
pub open spec fn decide(
    item: (Transformation, bool),
    only_types: Option<Seq<Seq<char>>>,
    validate_only: bool,
) -> Decision {
    if item.1 && !validate_only {
        Decision::SkipMissingTool
    } else if only_types matches Some(types) && !types.contains(type_name_of(item.0)) {
        Decision::SkipUnselected
    } else {
        Decision::Process
    }
}

/// How many of `items` a run skips.
pub open spec fn skipped_in(
    items: Seq<(Transformation, bool)>,
    only_types: Option<Seq<Seq<char>>>,
    validate_only: bool,
) -> nat
    decreases items.len(),
{
    if items.len() == 0 {
        0
    } else {
        skipped_in(items.drop_last(), only_types, validate_only) + if decide(
            items.last(),
            only_types,
            validate_only,
        ) == Decision::Process {
            0nat
        } else {
            1nat
        }
    }
}

/// How many of `items` a run carries out.
pub open spec fn processed_in(
    items: Seq<(Transformation, bool)>,
    only_types: Option<Seq<Seq<char>>>,
    validate_only: bool,
) -> nat
    decreases items.len(),
{
    if items.len() == 0 {
        0
    } else {
        processed_in(items.drop_last(), only_types, validate_only) + if decide(
            items.last(),
            only_types,
            validate_only,
        ) == Decision::Process {
            1nat
        } else {
            0nat
        }
    }
}

/// How many of `items` fail validation in a run that only validates, where
/// `present[k]` says which source files of the `k`-th item exist.
pub open spec fn validation_failures_in(
    items: Seq<(Transformation, bool)>,
    only_types: Option<Seq<Seq<char>>>,
    ctx: TransformationContext,
    present: Seq<Seq<bool>>,
) -> nat
    decreases items.len(),
{
    if items.len() == 0 {
        0
    } else {
        validation_failures_in(items.drop_last(), only_types, ctx, present) + if decide(
            items.last(),
            only_types,
            true,
        ) == Decision::Process && validation_failure(
            items.last().0,
            ctx,
            present[items.len() - 1],
        ) is Some {
            1nat
        } else {
            0nat
        }
    }
}

/// The count of validation failures reads only the answers about the items counted.
proof fn lemma_failures_frame(
    items: Seq<(Transformation, bool)>,
    only_types: Option<Seq<Seq<char>>>,
    ctx: TransformationContext,
    a: Seq<Seq<bool>>,
    b: Seq<Seq<bool>>,
)
    requires
        forall|k: int| 0 <= k < items.len() ==> a[k] == b[k],
    ensures
        validation_failures_in(items, only_types, ctx, a) == validation_failures_in(
            items,
            only_types,
            ctx,
            b,
        ),
    decreases items.len(),
{
    if items.len() > 0 {
        lemma_failures_frame(items.drop_last(), only_types, ctx, a, b);
    }
}

/// A transformation whose type is not among the selected types is never
/// carried out or validated, whether the run only validates or not: it is
/// skipped as unselected unless a missing tool skips it first. One whose
/// type is selected, or with no selection at all, is processed unless a
/// missing tool skips it in a run that does not only validate.
pub proof fn lemma_selection_decides(
    item: (Transformation, bool),
    only_types: Option<Seq<Seq<char>>>,
    validate_only: bool,
)
    ensures
        only_types matches Some(ts) && !ts.contains(type_name_of(item.0)) ==> {
            &&& decide(item, only_types, validate_only) != Decision::Process
            &&& !(item.1 && !validate_only) ==> decide(item, only_types, validate_only)
                == Decision::SkipUnselected
        },
        (only_types is None || (only_types matches Some(ts) && ts.contains(type_name_of(item.0))))
            ==> (decide(item, only_types, validate_only) == Decision::Process <==> !(item.1
            && !validate_only)),
        decide(item, only_types, validate_only) == Decision::SkipMissingTool ==> item.1
            && !validate_only,
{
}

/// Every item is either skipped or carried out.
pub proof fn lemma_skipped_processed(
    items: Seq<(Transformation, bool)>,
    only_types: Option<Seq<Seq<char>>>,
    validate_only: bool,
)
    ensures
        skipped_in(items, only_types, validate_only) + processed_in(items, only_types, validate_only)
            == items.len(),
    decreases items.len(),
{
    if items.len() > 0 {
        lemma_skipped_processed(items.drop_last(), only_types, validate_only);
    }
}

/// The digit character of a number below ten.
pub open spec fn digit_char(d: int) -> char {
    if d == 0 {
        '0'
    } else if d == 1 {
        '1'
    } else if d == 2 {
        '2'
    } else if d == 3 {
        '3'
    } else if d == 4 {
        '4'
    } else if d == 5 {
        '5'
    } else if d == 6 {
        '6'
    } else if d == 7 {
        '7'
    } else if d == 8 {
        '8'
    } else {
        '9'
    }
}

/// The decimal digits of a number, most significant first, without leading zeros.
pub open spec fn decimal_digits(n: nat) -> Seq<char>
    decreases n,
{
    if n < 10 {
        seq![digit_char(n as int)]
    } else {
        decimal_digits(n / 10).push(digit_char((n % 10) as int))
    }
}

/// The one-character text of a digit.
fn digit_text(d: usize) -> (r: &'static str)
    requires
        d < 10,
    ensures
        r@ == seq![digit_char(d as int)],
{
    if d == 0 {
        proof { reveal_strlit("0"); }
        "0"
    } else if d == 1 {
        proof { reveal_strlit("1"); }
        "1"
    } else if d == 2 {
        proof { reveal_strlit("2"); }
        "2"
    } else if d == 3 {
        proof { reveal_strlit("3"); }
        "3"
    } else if d == 4 {
        proof { reveal_strlit("4"); }
        "4"
    } else if d == 5 {
        proof { reveal_strlit("5"); }
        "5"
    } else if d == 6 {
        proof { reveal_strlit("6"); }
        "6"
    } else if d == 7 {
        proof { reveal_strlit("7"); }
        "7"
    } else if d == 8 {
        proof { reveal_strlit("8"); }
        "8"
    } else {
        proof { reveal_strlit("9"); }
        "9"
    }
}

/// The decimal text of a number.
pub fn decimal(n: usize) -> (r: String)
    ensures
        r@ == decimal_digits(n as nat),
    decreases n,
{
    if n < 10 {
        digit_text(n).to_owned()
    } else {
        let mut s = decimal(n / 10);
        s.append(digit_text(n % 10));
        s
    }
}

/// The summary of failed transformations that ends a run.
pub open spec fn failure_message(error_count: nat, validate_only: bool) -> Seq<char> {
    decimal_digits(error_count) + if validate_only {
        " transformation(s) failed validation"@
    } else {
        " transformation(s) failed"@
    }
}

/// The result of a run: a failure when any transformation failed.
pub open spec fn run_summary(error_count: nat, validate_only: bool) -> Result<(), ErrorView> {
    if error_count > 0 {
        Err(ErrorView::Transformation(failure_message(error_count, validate_only)))
    } else {
        Ok(())
    }
}

/// The result of a run with the given number of failed transformations.
pub fn summary_result(error_count: usize, validate_only: bool) -> (r: Result<(), Error>)
    ensures
        unit_result_view(r) == run_summary(error_count as nat, validate_only),
{
    if error_count > 0 {
        let mut msg = decimal(error_count);
        if validate_only {
            msg.append(" transformation(s) failed validation");
        } else {
            msg.append(" transformation(s) failed");
        }
        Err(Error::Transformation(msg))
    } else {
        Ok(())
    }
}

/// The next thing a run does.
pub enum Step<'a> {
    /// Skip this transformation: a tool it needs is missing.
    SkipMissingTool(&'a Transformation),
    /// Skip this transformation: its type is not selected.
    SkipUnselected(&'a Transformation),
    /// Validate this transformation (the run only validates) and record the outcome.
    Validate(&'a Transformation),
    /// Carry out this transformation and record the outcome.
    Execute(&'a Transformation),
    /// The run is over, with this result.
    Finished(Result<(), Error>),
}

/// A generation run in progress.
pub struct Generation<'a> {
    items: Vec<(&'a Transformation, bool)>,
    only_types: Option<Vec<String>>,
    validate_only: bool,
    brand_config: &'a BrandConfig,
    paths: &'a GeneratorPaths,
    capabilities: &'a PlatformCapabilities,
    ctx: TransformationContext<'a>,
    tally: Tally,
}

/// How far a run has got and what it has counted.
#[derive(Clone, Copy)]
struct Tally {
    /// How many selected transformations have been handed out.
    position: usize,
    /// Whether the outcome of the last one handed out is awaited.
    awaiting: bool,
    success_count: usize,
    skip_count: usize,
    error_count: usize,
    /// For each transformation handed out, which of its source files existed
    /// when it was validated.
    answers: Ghost<Seq<Seq<bool>>>,
}

impl<'a> Generation<'a> {
    /// The selected transformations, in order, each with whether a tool it
    /// needs is missing.
    pub closed spec fn selected(&self) -> Seq<(Transformation, bool)> {
        self.items@.map_values(|p: (&Transformation, bool)| (*p.0, p.1))
    }

    /// The selected type names, if the run restricts them.
    pub closed spec fn selected_types(&self) -> Option<Seq<Seq<char>>> {
        opt_names_view(self.only_types)
    }

    /// Whether the run only validates.
    pub closed spec fn validating(&self) -> bool {
        self.validate_only
    }

    /// How many selected transformations have been handed out.
    pub closed spec fn handed_out(&self) -> nat {
        self.tally.position as nat
    }

    /// Whether the outcome of the last transformation handed out is awaited.
    pub closed spec fn pending(&self) -> bool {
        self.tally.awaiting
    }

    /// How many transformations succeeded.
    pub closed spec fn succeeded(&self) -> nat {
        self.tally.success_count as nat
    }

    /// How many transformations were skipped.
    pub closed spec fn skipped(&self) -> nat {
        self.tally.skip_count as nat
    }

    /// How many transformations failed.
    pub closed spec fn failed(&self) -> nat {
        self.tally.error_count as nat
    }

    /// The brand configuration of the run.
    pub closed spec fn brand(&self) -> BrandConfig {
        *self.brand_config
    }

    /// The folders of the run.
    pub closed spec fn folders(&self) -> GeneratorPaths {
        *self.paths
    }

    /// The platform tools of the run.
    pub closed spec fn platform(&self) -> PlatformCapabilities {
        *self.capabilities
    }

    /// The context in which the run validates and carries out its transformations.
    pub closed spec fn run_context(&self) -> TransformationContext<'a> {
        self.ctx
    }

    /// For each transformation handed out, in order, which of its source
    /// files existed when it was validated (nothing for one not validated).
    pub closed spec fn answers(&self) -> Seq<Seq<bool>> {
        self.tally.answers@
    }

    /// The run's counts agree with what it has handed out.
    #[verifier::type_invariant]
    pub closed spec fn wf(&self) -> bool {
        let done = self.selected().take(self.tally.position as int);
        &&& self.tally.position <= self.items@.len()
        &&& self.ctx.source_dir@ == self.paths.source_dir@
        &&& self.ctx.static_dir@ == self.paths.static_dir@
        &&& self.ctx.output_dir@ == self.paths.output_dir@
        &&& *self.ctx.brand_config == *self.brand_config
        &&& *self.ctx.capabilities == *self.capabilities
        &&& self.tally.answers@.len() == self.tally.position
        &&& self.validate_only ==> self.tally.error_count == validation_failures_in(
            if self.tally.awaiting {
                done.drop_last()
            } else {
                done
            },
            self.selected_types(),
            self.ctx,
            self.tally.answers@,
        )
        &&& self.tally.awaiting ==> self.tally.position > 0 && decide(
            self.selected()[self.tally.position - 1],
            self.selected_types(),
            self.validate_only,
        ) == Decision::Process
        &&& self.tally.skip_count == skipped_in(done, self.selected_types(), self.validate_only)
        &&& self.tally.success_count + self.tally.error_count + (if self.tally.awaiting {
            1int
        } else {
            0int
        }) == processed_in(done, self.selected_types(), self.validate_only)
    }

    /// How many transformations succeeded.
    pub fn success_count(&self) -> (r: usize)
        ensures
            r == self.succeeded(),
    {
        self.tally.success_count
    }

    /// How many transformations were skipped.
    pub fn skip_count(&self) -> (r: usize)
        ensures
            r == self.skipped(),
    {
        self.tally.skip_count
    }

    /// How many transformations failed.
    pub fn error_count(&self) -> (r: usize)
        ensures
            r == self.failed(),
    {
        self.tally.error_count
    }

    /// Whether the outcome of the last transformation handed out is awaited.
    pub fn is_awaiting(&self) -> (r: bool)
        ensures
            r == self.pending(),
    {
        self.tally.awaiting
    }

    /// The context in which the run's transformations are carried out.
    pub fn context(&self) -> (r: TransformationContext<'a>)
        ensures
            r.source_dir@ == self.folders().source_dir@,
            r.static_dir@ == self.folders().static_dir@,
            r.output_dir@ == self.folders().output_dir@,
            *r.brand_config == self.brand(),
            *r.capabilities == self.platform(),
            same_sources(r, self.run_context()),
            r.output_dir@ == self.run_context().output_dir@,
            *r.capabilities == *self.run_context().capabilities,
    {
        proof {
            use_type_invariant(self);
        }
        TransformationContext {
            source_dir: self.paths.source_dir.as_str(),
            static_dir: self.paths.static_dir.as_str(),
            output_dir: self.paths.output_dir.as_str(),
            brand_config: self.brand_config,
            capabilities: self.capabilities,
        }
    }
}

impl<'a> Generation<'a> {
    /// Hands out the next selected transformation, or ends the run: a
    /// transformation whose tool is missing is skipped (unless only
    /// validating), then one whose type is not selected is skipped, and any
    /// other is to be validated (when the run only validates) or carried out,
    /// its outcome recorded with `record`. After
    /// the last one the run finishes, failing when any transformation failed.
    pub fn next_step(&mut self) -> (r: Step<'a>)
        requires
            !old(self).pending(),
        ensures
            final(self).wf(),
            final(self).selected() == old(self).selected(),
            final(self).selected_types() == old(self).selected_types(),
            final(self).validating() == old(self).validating(),
            final(self).brand() == old(self).brand(),
            final(self).folders() == old(self).folders(),
            final(self).platform() == old(self).platform(),
            final(self).run_context() == old(self).run_context(),
            final(self).succeeded() == old(self).succeeded(),
            final(self).failed() == old(self).failed(),
            old(self).handed_out() >= old(self).selected().len() ==> {
                &&& r matches Step::Finished(res) && unit_result_view(res) == run_summary(
                    old(self).failed(),
                    old(self).validating(),
                )
                &&& final(self).handed_out() == old(self).handed_out()
                &&& final(self).skipped() == old(self).skipped()
                &&& !final(self).pending()
            },
            old(self).handed_out() < old(self).selected().len() ==> {
                let item = old(self).selected()[old(self).handed_out() as int];
                &&& final(self).handed_out() == old(self).handed_out() + 1
                &&& match decide(item, old(self).selected_types(), old(self).validating()) {
                    Decision::SkipMissingTool => r matches Step::SkipMissingTool(t) && *t == item.0
                        && !final(self).pending() && final(self).skipped() == old(self).skipped()
                        + 1,
                    Decision::SkipUnselected => r matches Step::SkipUnselected(t) && *t == item.0
                        && !final(self).pending() && final(self).skipped() == old(self).skipped()
                        + 1,
                    Decision::Process => (if old(self).validating() {
                        r matches Step::Validate(t) && *t == item.0
                    } else {
                        r matches Step::Execute(t) && *t == item.0
                    }) && final(self).pending() && final(self).skipped() == old(self).skipped(),
                }
            },
    {
        proof {
            use_type_invariant(&*self);
        }
        let len = self.items.len();
        if self.tally.position >= len {
            return Step::Finished(summary_result(self.tally.error_count, self.validate_only));
        }
        let ghost pos = self.tally.position as int;
        let ghost sel = self.selected();
        let ghost types = self.selected_types();
        proof {
            lemma_skipped_processed(sel.take(pos), types, self.validate_only);
            assert(sel.take(pos + 1).drop_last() =~= sel.take(pos));
            assert(sel.take(pos + 1).last() == sel[pos]);
        }
        let t = self.items[self.tally.position].0;
        let missing = self.items[self.tally.position].1;
        let mut tally = self.tally;
        tally.position = tally.position + 1;
        tally.answers = Ghost(tally.answers@.push(Seq::empty()));
        proof {
            lemma_failures_frame(sel.take(pos), types, self.ctx, self.tally.answers@, tally.answers@);
        }
        if missing && !self.validate_only {
            tally.skip_count = tally.skip_count + 1;
            self.tally = tally;
            return Step::SkipMissingTool(t);
        }
        if let Some(types) = &self.only_types {
            let name = t.transformation_type().to_owned();
            if !contains_name(types, &name) {
                tally.skip_count = tally.skip_count + 1;
                self.tally = tally;
                return Step::SkipUnselected(t);
            }
        }
        tally.awaiting = true;
        self.tally = tally;
        if self.validate_only {
            Step::Validate(t)
        } else {
            Step::Execute(t)
        }
    }

    /// Records the outcome of the transformation last handed out to be
    /// carried out.
    pub fn record(&mut self, outcome: Result<(), Error>)
        requires
            old(self).pending(),
            !old(self).validating(),
        ensures
            final(self).wf(),
            !final(self).pending(),
            final(self).selected() == old(self).selected(),
            final(self).selected_types() == old(self).selected_types(),
            final(self).validating() == old(self).validating(),
            final(self).brand() == old(self).brand(),
            final(self).folders() == old(self).folders(),
            final(self).platform() == old(self).platform(),
            final(self).run_context() == old(self).run_context(),
            final(self).handed_out() == old(self).handed_out(),
            final(self).skipped() == old(self).skipped(),
            final(self).succeeded() == old(self).succeeded() + if outcome is Ok {
                1nat
            } else {
                0nat
            },
            final(self).failed() == old(self).failed() + if outcome is Err {
                1nat
            } else {
                0nat
            },
    {
        proof {
            use_type_invariant(&*self);
            lemma_skipped_processed(
                self.selected().take(self.tally.position as int),
                self.selected_types(),
                self.validate_only,
            );
        }
        let mut tally = self.tally;
        match outcome {
            Ok(()) => {
                tally.success_count = tally.success_count + 1;
            },
            Err(_) => {
                tally.error_count = tally.error_count + 1;
            },
        }
        tally.awaiting = false;
        self.tally = tally;
    }

    /// Validates the transformation last handed out in a run that only
    /// validates, records the outcome and returns it. The file system's
    /// answers about its source files are kept in `answers`.
    pub fn validate_current(&mut self) -> (r: Result<(), Error>)
        requires
            old(self).pending(),
            old(self).validating(),
        ensures
            final(self).wf(),
            !final(self).pending(),
            final(self).selected() == old(self).selected(),
            final(self).selected_types() == old(self).selected_types(),
            final(self).validating() == old(self).validating(),
            final(self).brand() == old(self).brand(),
            final(self).folders() == old(self).folders(),
            final(self).platform() == old(self).platform(),
            final(self).run_context() == old(self).run_context(),
            final(self).handed_out() == old(self).handed_out(),
            final(self).skipped() == old(self).skipped(),
            final(self).succeeded() == old(self).succeeded() + if r is Ok {
                1nat
            } else {
                0nat
            },
            final(self).failed() == old(self).failed() + if r is Err {
                1nat
            } else {
                0nat
            },
            ({
                let k = old(self).handed_out() - 1;
                let item = old(self).selected()[k];
                let p = final(self).answers()[k];
                &&& final(self).answers() == old(self).answers().update(k, p)
                &&& p.len() == required_inputs(item.0, old(self).run_context()).len()
                &&& unit_result_view(r) == failure_result(
                    validation_failure(item.0, old(self).run_context(), p),
                )
            }),
    {
        proof {
            use_type_invariant(&*self);
        }
        let ghost pos = self.tally.position as int;
        let ghost sel = self.selected();
        let ghost types = self.selected_types();
        proof {
            lemma_skipped_processed(sel.take(pos), types, true);
            assert(sel.take(pos).drop_last() =~= sel.take(pos - 1));
            assert(sel.take(pos).last() == sel[pos - 1]);
        }
        let t = self.items[self.tally.position - 1].0;
        let ctx = TransformationContext {
            source_dir: self.ctx.source_dir,
            static_dir: self.ctx.static_dir,
            output_dir: self.ctx.output_dir,
            brand_config: self.ctx.brand_config,
            capabilities: self.ctx.capabilities,
        };
        let r = validate(t, &ctx);
        let ghost p = choose|p: Seq<bool>|
            p.len() == required_inputs(*t, ctx).len() && unit_result_view(r) == failure_result(
                validation_failure(*t, ctx, p),
            );
        let mut tally = self.tally;
        tally.answers = Ghost(tally.answers@.update(pos - 1, p));
        proof {
            lemma_failures_frame(sel.take(pos - 1), types, self.ctx, self.tally.answers@, tally.answers@);
        }
        match &r {
            Ok(()) => {
                tally.success_count = tally.success_count + 1;
            },
            Err(_) => {
                tally.error_count = tally.error_count + 1;
            },
        }
        tally.awaiting = false;
        self.tally = tally;
        r
    }
}

/// Starts a run: selects the transformations of `config` that the filter
/// keeps for the brand named by the brand configuration's `name` value (all
/// macOS transformations when only validating), each paired with whether a
/// tool it needs is missing on this platform.
pub fn generate<'a>(
    config: &'a Config,
    brand_config: &'a BrandConfig,
    paths: &'a GeneratorPaths,
    filter_options: &FilterOptions,
    capabilities: &'a PlatformCapabilities,
    validate_only: bool,
) -> (r: Generation<'a>)
    ensures
        r.wf(),
        r.handed_out() == 0,
        !r.pending(),
        r.succeeded() == 0,
        r.skipped() == 0,
        r.failed() == 0,
        r.validating() == validate_only,
        r.selected() == kept_transformations(
            config.transformations@,
            effective_mode(filter_options.mac_mode, validate_only),
            env_brand_name(brand_config.env@),
            *capabilities,
        ),
        r.selected_types() == opt_names_view(filter_options.only_types),
        r.brand() == *brand_config,
        r.folders() == *paths,
        r.platform() == *capabilities,
        r.run_context().source_dir@ == paths.source_dir@,
        r.run_context().static_dir@ == paths.static_dir@,
        r.run_context().output_dir@ == paths.output_dir@,
        *r.run_context().brand_config == *brand_config,
        *r.run_context().capabilities == *capabilities,
{
    let filter = effective_filter(filter_options, brand_config, validate_only);
    let items = filter_transformations(&config.transformations, &filter, capabilities);
    let only_types = match &filter_options.only_types {
        Some(types) => Some(copy_names(types)),
        None => None,
    };
    let g = Generation {
        items,
        only_types,
        validate_only,
        brand_config,
        paths,
        capabilities,
        ctx: TransformationContext {
            source_dir: paths.source_dir.as_str(),
            static_dir: paths.static_dir.as_str(),
            output_dir: paths.output_dir.as_str(),
            brand_config,
            capabilities,
        },
        tally: Tally {
            position: 0,
            awaiting: false,
            success_count: 0,
            skip_count: 0,
            error_count: 0,
            answers: Ghost(Seq::empty()),
        },
    };
    assert(g.selected() =~= kept_transformations(
        config.transformations@,
        effective_mode(filter_options.mac_mode, validate_only),
        env_brand_name(brand_config.env@),
        *capabilities,
    ));
    assert(g.selected().take(0) =~= Seq::<(Transformation, bool)>::empty());
    g
}

/// Every transformation a finished run selected is counted once: as a
/// success, a skip or a failure.
pub proof fn lemma_run_counts_every_transformation(g: Generation)
    requires
        g.wf(),
        !g.pending(),
        g.handed_out() == g.selected().len(),
    ensures
        g.succeeded() + g.skipped() + g.failed() == g.selected().len(),
{
    assert(g.selected().take(g.handed_out() as int) =~= g.selected());
    lemma_skipped_processed(g.selected(), g.selected_types(), g.validating());
}

/// A run that only validates skips nothing for a missing tool and selects
/// every macOS transformation, whatever the platform.
pub proof fn lemma_validation_ignores_platform(
    item: (Transformation, bool),
    only_types: Option<Seq<Seq<char>>>,
    mode: MacMode,
)
    ensures
        decide(item, only_types, true) != Decision::SkipMissingTool,
        effective_mode(mode, true) == MacMode::All,
{
}

/// A run that only validates selects the same transformations, and decides
/// the same for each, whatever tools the platform has.
pub proof fn lemma_validating_run_ignores_tools(
    entries: Seq<crate::config::TransformationEntry>,
    brand: Option<Seq<char>>,
    caps1: PlatformCapabilities,
    caps2: PlatformCapabilities,
    only_types: Option<Seq<Seq<char>>>,
)
    ensures
        kept_transformations(entries, MacMode::All, brand, caps1).len() == kept_transformations(
            entries,
            MacMode::All,
            brand,
            caps2,
        ).len(),
        forall|k: int|
            0 <= k < kept_transformations(entries, MacMode::All, brand, caps1).len() ==> {
                &&& (#[trigger] kept_transformations(entries, MacMode::All, brand, caps1)[k]).0
                    == kept_transformations(entries, MacMode::All, brand, caps2)[k].0
                &&& decide(
                    kept_transformations(entries, MacMode::All, brand, caps1)[k],
                    only_types,
                    true,
                ) == decide(
                    kept_transformations(entries, MacMode::All, brand, caps2)[k],
                    only_types,
                    true,
                )
            },
    decreases entries.len(),
{
    if entries.len() > 0 {
        lemma_validating_run_ignores_tools(entries.drop_last(), brand, caps1, caps2, only_types);
    }
}

/// Two selections that hold the same transformations, position by
/// position, are skipped, carried out and failed alike by runs that only
/// validate against contexts with the same sources, when the same source
/// files are present.
proof fn lemma_failures_alike(
    items1: Seq<(Transformation, bool)>,
    items2: Seq<(Transformation, bool)>,
    only_types: Option<Seq<Seq<char>>>,
    ctx1: TransformationContext,
    ctx2: TransformationContext,
    present: Seq<Seq<bool>>,
)
    requires
        items1.len() == items2.len(),
        forall|k: int| 0 <= k < items1.len() ==> (#[trigger] items1[k]).0 == items2[k].0,
        same_sources(ctx1, ctx2),
    ensures
        validation_failures_in(items1, only_types, ctx1, present) == validation_failures_in(
            items2,
            only_types,
            ctx2,
            present,
        ),
        skipped_in(items1, only_types, true) == skipped_in(items2, only_types, true),
        processed_in(items1, only_types, true) == processed_in(items2, only_types, true),
    decreases items1.len(),
{
    if items1.len() > 0 {
        let n = items1.len() - 1;
        assert forall|k: int| 0 <= k < items1.drop_last().len() implies (
        #[trigger] items1.drop_last()[k]).0 == items2.drop_last()[k].0 by {
            assert(items1[k].0 == items2[k].0);
        }
        lemma_failures_alike(
            items1.drop_last(),
            items2.drop_last(),
            only_types,
            ctx1,
            ctx2,
            present,
        );
        assert(items1[n].0 == items2[n].0);
        lemma_validation_same_sources(items1.last().0, ctx1, ctx2, present[n]);
    }
}

/// A run that only validates a configuration for a brand ends alike whatever
/// tools the platform has: with the same type selection, the same source
/// folders and brand configuration, and the same source files present, it
/// skips, validates and fails the same transformations.
pub proof fn lemma_validating_runs_end_alike(
    entries: Seq<crate::config::TransformationEntry>,
    brand: Option<Seq<char>>,
    only_types: Option<Seq<Seq<char>>>,
    caps1: PlatformCapabilities,
    caps2: PlatformCapabilities,
    ctx1: TransformationContext,
    ctx2: TransformationContext,
    present: Seq<Seq<bool>>,
)
    requires
        same_sources(ctx1, ctx2),
    ensures
        validation_failures_in(
            kept_transformations(entries, MacMode::All, brand, caps1),
            only_types,
            ctx1,
            present,
        ) == validation_failures_in(
            kept_transformations(entries, MacMode::All, brand, caps2),
            only_types,
            ctx2,
            present,
        ),
        skipped_in(kept_transformations(entries, MacMode::All, brand, caps1), only_types, true)
            == skipped_in(kept_transformations(entries, MacMode::All, brand, caps2), only_types, true),
        processed_in(kept_transformations(entries, MacMode::All, brand, caps1), only_types, true)
            == processed_in(
            kept_transformations(entries, MacMode::All, brand, caps2),
            only_types,
            true,
        ),
{
    lemma_validating_run_ignores_tools(entries, brand, caps1, caps2, only_types);
    lemma_failures_alike(
        kept_transformations(entries, MacMode::All, brand, caps1),
        kept_transformations(entries, MacMode::All, brand, caps2),
        only_types,
        ctx1,
        ctx2,
        present,
    );
}

/// A finished run that only validates has failed exactly the transformations
/// whose validation failed on the file system's answers, and skipped and
/// validated as its selection decides.
pub proof fn lemma_finished_validating_run(g: Generation)
    requires
        g.wf(),
        !g.pending(),
        g.validating(),
        g.handed_out() == g.selected().len(),
    ensures
        g.failed() == validation_failures_in(
            g.selected(),
            g.selected_types(),
            g.run_context(),
            g.answers(),
        ),
        g.skipped() == skipped_in(g.selected(), g.selected_types(), true),
        g.succeeded() + g.failed() == processed_in(g.selected(), g.selected_types(), true),
{
    assert(g.selected().take(g.handed_out() as int) =~= g.selected());
}

/// Two finished runs that only validate the same configuration for the same
/// brand, with the same type selection, source folders and brand
/// configuration, end with the same counts and the same result whatever
/// tools each platform has, when the file system answered alike.
pub proof fn lemma_validating_generations_end_alike(
    g1: Generation,
    g2: Generation,
    entries: Seq<crate::config::TransformationEntry>,
    brand: Option<Seq<char>>,
)
    requires
        g1.wf(),
        g2.wf(),
        !g1.pending(),
        !g2.pending(),
        g1.validating(),
        g2.validating(),
        g1.handed_out() == g1.selected().len(),
        g2.handed_out() == g2.selected().len(),
        g1.selected() == kept_transformations(entries, MacMode::All, brand, g1.platform()),
        g2.selected() == kept_transformations(entries, MacMode::All, brand, g2.platform()),
        g1.selected_types() == g2.selected_types(),
        same_sources(g1.run_context(), g2.run_context()),
        g1.answers() == g2.answers(),
    ensures
        g1.failed() == g2.failed(),
        g1.skipped() == g2.skipped(),
        g1.succeeded() == g2.succeeded(),
        run_summary(g1.failed(), true) == run_summary(g2.failed(), true),
{
    lemma_finished_validating_run(g1);
    lemma_finished_validating_run(g2);
    lemma_validating_runs_end_alike(
        entries,
        brand,
        g1.selected_types(),
        g1.platform(),
        g2.platform(),
        g1.run_context(),
        g2.run_context(),
        g1.answers(),
    );
}

} // verus!
