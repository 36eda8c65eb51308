//! A registry of ready-made programs for common experiments, with the
//! parameters that each takes and the limits that these must keep.

use crate::error::{EngineError, ValidationFault};
use crate::scalar::{Real, INFINITY_BITS, SIGN_BIT};
use vstd::prelude::*;

verus! {

/// The field that a template belongs to.
#[derive(Clone, Copy, Debug, PartialEq, Eq, Hash, Structural)]
pub enum TemplateCategory {
    SingleQubit,
    TwoQubit,
    Cavity,
    OpenSystems,
    ManyBody,
    MetrologyOptimization,
}

/// The limits that the value of a parameter must keep.
#[derive(Clone, Copy, Debug, PartialEq, Eq, Structural)]
pub struct ParameterConstraints {
    pub min: Option<Real>,
    pub max: Option<Real>,
    pub must_be_positive: bool,
    pub must_be_integer: bool,
}

/// A parameter of a template.
#[derive(Debug, PartialEq, Eq)]
pub struct TemplateParameter {
    pub name: String,
    pub description: String,
    pub default_value: Real,
    pub constraints: ParameterConstraints,
}

/// A publication.
#[derive(Debug, PartialEq, Eq)]
pub struct Citation {
    pub authors: String,
    pub title: String,
    pub journal: String,
    pub year: u32,
    pub doi: Option<String>,
}

/// A ready-made program with places for its parameters.
#[derive(Debug, PartialEq, Eq)]
pub struct Template {
    pub id: String,
    pub name: String,
    pub description: String,
    pub category: TemplateCategory,
    pub parameters: Vec<TemplateParameter>,
    /// The program, with `{name}` where the value of a parameter goes.
    pub code: String,
    pub tags: Vec<String>,
    pub citations: Vec<Citation>,
}

/// The value of a parameter, with the text that is written for it.
#[derive(Debug, PartialEq, Eq)]
pub struct TemplateArgument {
    pub name: String,
    pub value: Real,
    pub text: String,
}

/// The templates by their ids.
pub struct TemplateRegistry {
    templates: Vec<Template>,
}

/// Weight of the lowest bit of the exponent.
pub const EXPONENT_UNIT: u64 = 0x0010_0000_0000_0000;

/// `2` to the power `k`.
pub open spec fn two_to(k: nat) -> nat
    decreases k,
{
    if k == 0 {
        1
    } else {
        2 * two_to((k - 1) as nat)
    }
}

/// Whether a number is whole: zero, or a finite number without digits
/// behind the point. With exponent field `e` and fraction field `f`, a
/// number from 1 on is whole when `e` is at least 1075 or the lowest
/// `1075 - e` bits of `f` are zero.
pub open spec fn whole(x: Real) -> bool {
    let m = x.magnitude();
    let e = m / (EXPONENT_UNIT as int);
    let f = m % (EXPONENT_UNIT as int);
    if m == 0 {
        true
    } else if m >= INFINITY_BITS {
        false
    } else if e < 1023 {
        false
    } else if e >= 1075 {
        true
    } else {
        f % (two_to((1075 - e) as nat) as int) == 0
    }
}

/// The limit that a value breaks, if it breaks one: the minimum, the
/// maximum, being positive, being whole, looked at in this order.
pub open spec fn broken_limit(param: TemplateParameter, value: Real) -> Option<EngineError> {
    let c = param.constraints;
    if c.min is Some && value.lt(c.min->Some_0) {
        Some(
            EngineError::ValidationError(
                ValidationFault::BelowMinimum { name: param.name, value, min: c.min->Some_0 },
            ),
        )
    } else if c.max is Some && c.max->Some_0.lt(value) {
        Some(
            EngineError::ValidationError(
                ValidationFault::AboveMaximum { name: param.name, value, max: c.max->Some_0 },
            ),
        )
    } else if c.must_be_positive && value.le(Real { bits: 0 }) {
        Some(
            EngineError::ValidationError(ValidationFault::NotPositive { name: param.name, value }),
        )
    } else if c.must_be_integer && !whole(value) {
        Some(EngineError::ValidationError(ValidationFault::NotWhole { name: param.name, value }))
    } else {
        None
    }
}

/// Whether a number is whole.
pub fn is_whole(x: Real) -> (r: bool)
    ensures
        r == whole(x),
{
    let m: u64 = if x.bits >= SIGN_BIT {
        x.bits - SIGN_BIT
    } else {
        x.bits
    };
    if m == 0 {
        return true;
    }
    if m >= INFINITY_BITS {
        return false;
    }
    let e: u64 = m / EXPONENT_UNIT;
    let f: u64 = m % EXPONENT_UNIT;
    if e < 1023 {
        return false;
    }
    if e >= 1075 {
        return true;
    }
    let shift: u64 = 1075 - e;
    let mut unit: u64 = 1;
    let mut k: u64 = 0;
    proof {
        lemma_two_to_grows(0, 52);
    }
    while k < shift
        invariant
            k <= shift,
            shift <= 52,
            unit == two_to(k as nat),
            unit <= two_to(52),
            unit > 0,
        decreases shift - k,
    {
        proof {
            lemma_two_to_grows(k as nat + 1, 52);
            lemma_two_to_52();
        }
        unit = unit * 2;
        k += 1;
    }
    f % unit == 0
}

/// Powers of two grow with the exponent.
pub proof fn lemma_two_to_grows(a: nat, b: nat)
    requires
        a <= b,
    ensures
        two_to(a) <= two_to(b),
        two_to(a) > 0,
    decreases b,
{
    if a < b {
        lemma_two_to_grows(a, (b - 1) as nat);
    } else if a > 0 {
        lemma_two_to_grows((a - 1) as nat, (b - 1) as nat);
    }
}

/// `2` to the power 52 is the weight of the lowest bit of the exponent.
pub proof fn lemma_two_to_52()
    ensures
        two_to(52) == 0x0010_0000_0000_0000,
{
    reveal_with_fuel(two_to, 54);
}

/// The first template at or after `from` with the given id.
pub open spec fn template_at(templates: Seq<Template>, id: Seq<char>, from: int) -> Option<int>
    decreases templates.len() - from,
{
    if from < 0 || from >= templates.len() {
        None
    } else if templates[from].id@ == id {
        Some(from)
    } else {
        template_at(templates, id, from + 1)
    }
}

/// The place of the first parameter at or after `from` with the given
/// name.
pub open spec fn argument_at(args: Seq<TemplateArgument>, name: Seq<char>, from: int) -> Option<int>
    decreases args.len() - from,
{
    if from < 0 || from >= args.len() {
        None
    } else if args[from].name@ == name {
        Some(from)
    } else {
        argument_at(args, name, from + 1)
    }
}

/// The error of the first parameter at or after `from` whose given value
/// breaks a limit.
pub open spec fn arguments_fault(
    params: Seq<TemplateParameter>,
    args: Seq<TemplateArgument>,
    from: int,
) -> Option<EngineError>
    decreases params.len() - from,
{
    if from < 0 || from >= params.len() {
        None
    } else {
        match argument_at(args, params[from].name@, 0) {
            Some(a) => match broken_limit(params[from], args[a].value) {
                Some(e) => Some(e),
                None => arguments_fault(params, args, from + 1),
            },
            None => arguments_fault(params, args, from + 1),
        }
    }
}

/// A text with every `from` replaced by `to`, as `str::replace` does it:
/// from the left, without overlap.
pub uninterp spec fn replaced(text: Seq<char>, from: Seq<char>, to: Seq<char>) -> Seq<char>;

/// A text in lower case, as `str::to_lowercase` gives it.
pub uninterp spec fn lowercase_of(text: Seq<char>) -> Seq<char>;

/// Whether `needle` occurs in `hay`.
pub open spec fn occurs_in(hay: Seq<char>, needle: Seq<char>) -> bool {
    exists|i: int|
        0 <= i && i + needle.len() <= hay.len() && #[trigger] hay.subrange(
            i,
            i + needle.len(),
        ) == needle
}

/// `str::replace`: every match of `from` in `text`, found from the left
/// without overlap, is replaced by `to`.
#[verifier::external_body]
fn replace_all(text: &str, from: &str, to: &str) -> (r: String)
    ensures
        r@ == replaced(text@, from@, to@),
{
    text.replace(from, to)
}

/// `str::to_lowercase`: the text with every character in lower case.
#[verifier::external_body]
pub(crate) fn lowercase(text: &str) -> (r: String)
    ensures
        r@ == lowercase_of(text@),
{
    text.to_lowercase()
}

/// `str::contains` with a text as pattern: whether the pattern matches a
/// part of the text.
#[verifier::external_body]
fn contains_text(hay: &str, needle: &str) -> (r: bool)
    ensures
        r == occurs_in(hay@, needle@),
{
    hay.contains(needle)
}

/// The code after the first `count` arguments were written into it, each
/// in place of its name between braces.
pub open spec fn substituted(code: Seq<char>, args: Seq<TemplateArgument>, count: nat) -> Seq<char>
    decreases count,
{
    if count == 0 {
        code
    } else {
        replaced(
            substituted(code, args, (count - 1) as nat),
            "{"@ + args[count - 1].name@ + "}"@,
            args[count - 1].text@,
        )
    }
}

/// Whether a query, in lower case, occurs in the name, the description or
/// a tag of a template, each in lower case.
pub open spec fn matches_query(t: Template, query: Seq<char>) -> bool {
    occurs_in(lowercase_of(t.name@), query) || occurs_in(lowercase_of(t.description@), query)
        || exists|k: int|
        0 <= k < t.tags@.len() && occurs_in(lowercase_of((#[trigger] t.tags@[k])@), query)
}

/// The places of the templates among the first `count` that pass a test.
pub open spec fn chosen(templates: Seq<Template>, pass: spec_fn(Template) -> bool, count: nat) -> Seq<
    int,
>
    decreases count,
{
    if count == 0 {
        Seq::empty()
    } else if pass(templates[count - 1]) {
        chosen(templates, pass, (count - 1) as nat).push(count - 1)
    } else {
        chosen(templates, pass, (count - 1) as nat)
    }
}

impl TemplateCategory {
    /// The category that a label stands for.
    pub open spec fn labelled(label: Seq<char>) -> Option<TemplateCategory> {
        if label == "single-qubit"@ {
            Some(TemplateCategory::SingleQubit)
        } else if label == "two-qubit"@ {
            Some(TemplateCategory::TwoQubit)
        } else if label == "cavity"@ {
            Some(TemplateCategory::Cavity)
        } else {
            None
        }
    }

    /// The category that a label stands for: `single-qubit`, `two-qubit`
    /// or `cavity`.
    pub fn parse(label: &str) -> (r: Option<TemplateCategory>)
        ensures
            r == TemplateCategory::labelled(label@),
    {
        let given = label.to_owned();
        if given == "single-qubit".to_string() {
            Some(TemplateCategory::SingleQubit)
        } else if given == "two-qubit".to_string() {
            Some(TemplateCategory::TwoQubit)
        } else if given == "cavity".to_string() {
            Some(TemplateCategory::Cavity)
        } else {
            None
        }
    }
}

impl TemplateRegistry {
    /// The templates, in the order they were registered.
    pub closed spec fn held(&self) -> Seq<Template> {
        self.templates@
    }

    /// A registry without templates.
    pub fn empty() -> (r: TemplateRegistry)
        ensures
            r.held().len() == 0,
    {
        TemplateRegistry { templates: Vec::new() }
    }

    /// A registry with the built-in templates.
    pub fn new() -> (r: TemplateRegistry)
        ensures
            r.held().len() == 7,
            r.held()[0].id@ == "rabi"@,
            r.held()[1].id@ == "ramsey"@,
            r.held()[2].id@ == "bell_tomography"@,
            r.held()[3].id@ == "jaynes_cummings"@,
            r.held()[4].id@ == "zeno"@,
            r.held()[5].id@ == "grover"@,
            r.held()[6].id@ == "vqe_h2"@,
    {
        let mut registry = TemplateRegistry::empty();
        registry.load_builtin_templates();
        registry
    }

    fn load_builtin_templates(&mut self)
        requires
            old(self).held().len() == 0,
        ensures
            final(self).held().len() == 7,
            final(self).held()[0].id@ == "rabi"@,
            final(self).held()[1].id@ == "ramsey"@,
            final(self).held()[2].id@ == "bell_tomography"@,
            final(self).held()[3].id@ == "jaynes_cummings"@,
            final(self).held()[4].id@ == "zeno"@,
            final(self).held()[5].id@ == "grover"@,
            final(self).held()[6].id@ == "vqe_h2"@,
    {
        self.templates.push(rabi_oscillations());
        self.templates.push(ramsey_interferometry());
        self.templates.push(bell_state_tomography());
        self.templates.push(jaynes_cummings());
        self.templates.push(quantum_zeno());
        self.templates.push(grover_search());
        self.templates.push(vqe_h2());
    }

    /// The place of the first template with the given id.
    fn find(&self, id: &str) -> (r: Option<usize>)
        ensures
            match r {
                Some(p) => template_at(self.held(), id@, 0) == Some(p as int) && p
                    < self.held().len() && self.held()[p as int].id@ == id@,
                None => template_at(self.held(), id@, 0) is None,
            },
    {
        let key = id.to_owned();
        let mut i: usize = 0;
        while i < self.templates.len()
            invariant
                i <= self.templates@.len(),
                key@ == id@,
                template_at(self.held(), id@, 0) == template_at(self.held(), id@, i as int),
            decreases self.templates@.len() - i,
        {
            if self.templates[i].id == key {
                return Some(i);
            }
            i += 1;
        }
        None
    }

    /// Registers a template; it takes the place of one with the same id,
    /// and comes last where there is none.
    pub fn register(&mut self, template: Template)
        ensures
            match template_at(old(self).held(), template.id@, 0) {
                Some(p) => final(self).held() == old(self).held().update(p, template),
                None => final(self).held() == old(self).held().push(template),
            },
    {
        match self.find(template.id.as_str()) {
            Some(p) => {
                self.templates[p] = template;
            },
            None => {
                self.templates.push(template);
            },
        }
    }

    /// The template with the given id.
    pub fn get(&self, id: &str) -> (r: Option<&Template>)
        ensures
            match template_at(self.held(), id@, 0) {
                Some(p) => r == Some(&self.held()[p]),
                None => r is None,
            },
    {
        match self.find(id) {
            Some(p) => Some(&self.templates[p]),
            None => None,
        }
    }

    /// The templates of a category, in the order they were registered.
    pub fn list_by_category(&self, category: TemplateCategory) -> (r: Vec<&Template>)
        ensures
            r@.len() == chosen(
                self.held(),
                |t: Template| t.category == category,
                self.held().len(),
            ).len(),
            forall|k: int|
                0 <= k < r@.len() ==> *(#[trigger] r@[k]) == self.held()[chosen(
                    self.held(),
                    |t: Template| t.category == category,
                    self.held().len(),
                )[k]],
    {
        let ghost pass = |t: Template| t.category == category;
        let mut out: Vec<&Template> = Vec::new();
        let mut i: usize = 0;
        while i < self.templates.len()
            invariant
                i <= self.templates@.len(),
                pass == (|t: Template| t.category == category),
                out@.len() == chosen(self.held(), pass, i as nat).len(),
                forall|k: int|
                    0 <= k < out@.len() ==> *(#[trigger] out@[k]) == self.held()[chosen(
                        self.held(),
                        pass,
                        i as nat,
                    )[k]],
            decreases self.templates@.len() - i,
        {
            let same = match (self.templates[i].category, category) {
                (TemplateCategory::SingleQubit, TemplateCategory::SingleQubit) => true,
                (TemplateCategory::TwoQubit, TemplateCategory::TwoQubit) => true,
                (TemplateCategory::Cavity, TemplateCategory::Cavity) => true,
                (TemplateCategory::OpenSystems, TemplateCategory::OpenSystems) => true,
                (TemplateCategory::ManyBody, TemplateCategory::ManyBody) => true,
                (
                    TemplateCategory::MetrologyOptimization,
                    TemplateCategory::MetrologyOptimization,
                ) => true,
                _ => false,
            };
            if same {
                out.push(&self.templates[i]);
            }
            i += 1;
        }
        out
    }

    /// Whether a query in lower case occurs in the name, the description or
    /// a tag of a template.
    fn matches(t: &Template, query: &str) -> (r: bool)
        ensures
            r == matches_query(*t, query@),
    {
        if contains_text(lowercase(t.name.as_str()).as_str(), query) {
            return true;
        }
        if contains_text(lowercase(t.description.as_str()).as_str(), query) {
            return true;
        }
        let mut k: usize = 0;
        while k < t.tags.len()
            invariant
                k <= t.tags@.len(),
                !occurs_in(lowercase_of(t.name@), query@),
                !occurs_in(lowercase_of(t.description@), query@),
                forall|j: int|
                    0 <= j < k ==> !occurs_in(lowercase_of((#[trigger] t.tags@[j])@), query@),
            decreases t.tags@.len() - k,
        {
            if contains_text(lowercase(t.tags[k].as_str()).as_str(), query) {
                return true;
            }
            k += 1;
        }
        false
    }

    /// The templates whose name, description or tags hold the query, all
    /// taken in lower case, in the order they were registered.
    pub fn search(&self, query: &str) -> (r: Vec<&Template>)
        ensures
            r@.len() == chosen(
                self.held(),
                |t: Template| matches_query(t, lowercase_of(query@)),
                self.held().len(),
            ).len(),
            forall|k: int|
                0 <= k < r@.len() ==> *(#[trigger] r@[k]) == self.held()[chosen(
                    self.held(),
                    |t: Template| matches_query(t, lowercase_of(query@)),
                    self.held().len(),
                )[k]],
    {
        let lowered = lowercase(query);
        let ghost pass = |t: Template| matches_query(t, lowercase_of(query@));
        let mut out: Vec<&Template> = Vec::new();
        let mut i: usize = 0;
        while i < self.templates.len()
            invariant
                i <= self.templates@.len(),
                lowered@ == lowercase_of(query@),
                pass == (|t: Template| matches_query(t, lowercase_of(query@))),
                out@.len() == chosen(self.held(), pass, i as nat).len(),
                forall|k: int|
                    0 <= k < out@.len() ==> *(#[trigger] out@[k]) == self.held()[chosen(
                        self.held(),
                        pass,
                        i as nat,
                    )[k]],
            decreases self.templates@.len() - i,
        {
            if TemplateRegistry::matches(&self.templates[i], lowered.as_str()) {
                out.push(&self.templates[i]);
            }
            i += 1;
        }
        out
    }

    /// Checks a value against the limits of a parameter.
    pub fn validate_parameter(&self, param: &TemplateParameter, value: Real) -> (r: Result<
        (),
        EngineError,
    >)
        ensures
            match broken_limit(*param, value) {
                Some(e) => r == Err::<(), EngineError>(e),
                None => r == Ok::<(), EngineError>(()),
            },
    {
        let c = param.constraints;
        match c.min {
            Some(min) => {
                if value.less_than(min) {
                    return Err(
                        EngineError::validation_error(
                            ValidationFault::BelowMinimum { name: param.name.clone(), value, min },
                        ),
                    );
                }
            },
            None => {},
        }
        match c.max {
            Some(max) => {
                if value.greater_than(max) {
                    return Err(
                        EngineError::validation_error(
                            ValidationFault::AboveMaximum { name: param.name.clone(), value, max },
                        ),
                    );
                }
            },
            None => {},
        }
        if c.must_be_positive && value.less_or_equal(Real::zero()) {
            return Err(
                EngineError::validation_error(
                    ValidationFault::NotPositive { name: param.name.clone(), value },
                ),
            );
        }
        if c.must_be_integer && !is_whole(value) {
            return Err(
                EngineError::validation_error(
                    ValidationFault::NotWhole { name: param.name.clone(), value },
                ),
            );
        }
        Ok(())
    }

    /// The place of the first argument with the given name.
    fn find_argument(args: &Vec<TemplateArgument>, name: &String) -> (r: Option<usize>)
        ensures
            match r {
                Some(p) => argument_at(args@, name@, 0) == Some(p as int) && p < args@.len(),
                None => argument_at(args@, name@, 0) is None,
            },
    {
        let mut i: usize = 0;
        while i < args.len()
            invariant
                i <= args@.len(),
                argument_at(args@, name@, 0) == argument_at(args@, name@, i as int),
            decreases args@.len() - i,
        {
            if args[i].name == *name {
                return Some(i);
            }
            i += 1;
        }
        None
    }

    /// The program of a template with the given values written into it:
    /// every parameter of the template for which a value is given is checked
    /// against its limits, in the order of the parameters; then each value is
    /// written in place of its name between braces, in the order given.
    pub fn instantiate(&self, id: &str, params: &Vec<TemplateArgument>) -> (r: Result<
        String,
        EngineError,
    >)
        ensures
            match template_at(self.held(), id@, 0) {
                None => r is Err && r->Err_0 is NotFound && r->Err_0->NotFound_0@ == id@,
                Some(p) => match arguments_fault(self.held()[p].parameters@, params@, 0) {
                    Some(e) => r == Err::<String, EngineError>(e),
                    None => r is Ok && r->Ok_0@ == substituted(
                        self.held()[p].code@,
                        params@,
                        params@.len(),
                    ),
                },
            },
    {
        let template = match self.get(id) {
            Some(t) => t,
            None => {
                return Err(EngineError::NotFound(id.to_owned()));
            },
        };
        let mut i: usize = 0;
        while i < template.parameters.len()
            invariant
                i <= template.parameters@.len(),
                template_at(self.held(), id@, 0) is Some,
                *template == self.held()[template_at(self.held(), id@, 0)->Some_0],
                arguments_fault(template.parameters@, params@, 0) == arguments_fault(
                    template.parameters@,
                    params@,
                    i as int,
                ),
            decreases template.parameters@.len() - i,
        {
            let param = &template.parameters[i];
            match TemplateRegistry::find_argument(params, &param.name) {
                Some(a) => {
                    match self.validate_parameter(param, params[a].value) {
                        Ok(()) => {},
                        Err(e) => {
                            return Err(e);
                        },
                    }
                },
                None => {},
            }
            i += 1;
        }
        let mut code = template.code.clone();
        let mut k: usize = 0;
        while k < params.len()
            invariant
                k <= params@.len(),
                code@ == substituted(template.code@, params@, k as nat),
            decreases params@.len() - k,
        {
            let mut marker = "{".to_string();
            marker.append(params[k].name.as_str());
            marker.append("}");
            code = replace_all(code.as_str(), marker.as_str(), params[k].text.as_str());
            k += 1;
        }
        Ok(code)
    }
}

/// Rabi oscillations of a driven two-level system.
pub fn rabi_oscillations() -> (t: Template)
    ensures
        t.id@ == "rabi"@,
{
    Template {
        id: "rabi".to_string(),
        name: "Rabi Oscillations".to_string(),
        description: "Coherent oscillations of a driven two-level system".to_string(),
        category: TemplateCategory::SingleQubit,
        parameters: vec![
            TemplateParameter {
                name: "omega".to_string(),
                description: "Rabi frequency (MHz)".to_string(),
                default_value: Real { bits: 0x3ff0000000000000 },
                constraints: ParameterConstraints {
                    min: Some(Real { bits: 0x0000000000000000 }),
                    max: None,
                    must_be_positive: true,
                    must_be_integer: false,
                },
            },
            TemplateParameter {
                name: "T".to_string(),
                description: "Evolution time (μs)".to_string(),
                default_value: Real { bits: 0x4024000000000000 },
                constraints: ParameterConstraints {
                    min: Some(Real { bits: 0x0000000000000000 }),
                    max: None,
                    must_be_positive: true,
                    must_be_integer: false,
                },
            },
        ],
        code: r#"
param omega: Real = {omega};  # Rabi frequency
param T: Real = {T};          # Total time

state psi: Qubit = |0>;
operator H: Operator<2> = omega * sigma_x / 2;

evolve psi under H for T;
measure psi in computational;
"#.to_string(),
        tags: vec!["rabi".to_string(), "qubit".to_string(), "driving".to_string()],
        citations: vec![
            Citation {
                authors: "Rabi, I. I.".to_string(),
                title: "Space Quantization in a Gyrating Magnetic Field".to_string(),
                journal: "Physical Review".to_string(),
                year: 1937,
                doi: Some("10.1103/PhysRev.51.652".to_string()),
            },
        ],
    }
}

/// Ramsey interferometry: two pulses around a free evolution.
pub fn ramsey_interferometry() -> (t: Template)
    ensures
        t.id@ == "ramsey"@,
{
    Template {
        id: "ramsey".to_string(),
        name: "Ramsey Interferometry".to_string(),
        description: "Two π/2 pulses separated by free evolution for precision frequency measurements".to_string(),
        category: TemplateCategory::SingleQubit,
        parameters: vec![
            TemplateParameter {
                name: "delta".to_string(),
                description: "Detuning from resonance (kHz)".to_string(),
                default_value: Real { bits: 0x3fb999999999999a },
                constraints: ParameterConstraints {
                    min: None,
                    max: None,
                    must_be_positive: false,
                    must_be_integer: false,
                },
            },
            TemplateParameter {
                name: "tau".to_string(),
                description: "Free evolution time (μs)".to_string(),
                default_value: Real { bits: 0x4014000000000000 },
                constraints: ParameterConstraints {
                    min: Some(Real { bits: 0x0000000000000000 }),
                    max: None,
                    must_be_positive: true,
                    must_be_integer: false,
                },
            },
        ],
        code: r#"
param delta: Real = {delta};  # Detuning
param tau: Real = {tau};      # Free evolution

state psi: Qubit = |0>;
operator pi_2: Unitary<2> = expm(-i * pi/4 * sigma_y);
operator H_det: Operator<2> = delta * sigma_z / 2;

apply pi_2 to psi;
evolve psi under H_det for tau;
apply pi_2 to psi;

measure psi in computational;
"#.to_string(),
        tags: vec!["ramsey".to_string(), "interferometry".to_string(), "metrology".to_string()],
        citations: vec![],
    }
}

/// Preparation and tomography of a Bell state.
pub fn bell_state_tomography() -> (t: Template)
    ensures
        t.id@ == "bell_tomography"@,
{
    Template {
        id: "bell_tomography".to_string(),
        name: "Bell State Tomography".to_string(),
        description: "Prepare and measure Bell states in multiple bases".to_string(),
        category: TemplateCategory::TwoQubit,
        parameters: vec![
            TemplateParameter {
                name: "shots".to_string(),
                description: "Number of measurement shots".to_string(),
                default_value: Real { bits: 0x408f400000000000 },
                constraints: ParameterConstraints {
                    min: Some(Real { bits: 0x3ff0000000000000 }),
                    max: None,
                    must_be_positive: true,
                    must_be_integer: true,
                },
            },
        ],
        code: r#"
param shots: Int = {shots};

state psi: Qubit^2 = |00>;

# Prepare Bell state |Φ+⟩ = (|00⟩ + |11⟩)/√2
apply hadamard to psi[0];
apply cnot to psi;

# Tomography in computational basis
measure psi in computational with shots;

# Tomography in X basis (both qubits)
apply hadamard to psi[0];
apply hadamard to psi[1];
measure psi in computational with shots;

# Tomography in Y basis
apply s_dagger to psi[0];
apply hadamard to psi[0];
apply s_dagger to psi[1];
apply hadamard to psi[1];
measure psi in computational with shots;
"#.to_string(),
        tags: vec!["bell".to_string(), "entanglement".to_string(), "tomography".to_string()],
        citations: vec![],
    }
}

/// A two-level atom in a cavity.
pub fn jaynes_cummings() -> (t: Template)
    ensures
        t.id@ == "jaynes_cummings"@,
{
    Template {
        id: "jaynes_cummings".to_string(),
        name: "Jaynes-Cummings Model".to_string(),
        description: "Atom-cavity coupling with vacuum Rabi oscillations".to_string(),
        category: TemplateCategory::Cavity,
        parameters: vec![
            TemplateParameter {
                name: "g".to_string(),
                description: "Coupling strength (MHz)".to_string(),
                default_value: Real { bits: 0x3ff0000000000000 },
                constraints: ParameterConstraints {
                    min: Some(Real { bits: 0x0000000000000000 }),
                    max: None,
                    must_be_positive: true,
                    must_be_integer: false,
                },
            },
            TemplateParameter {
                name: "n_max".to_string(),
                description: "Maximum photon number".to_string(),
                default_value: Real { bits: 0x4014000000000000 },
                constraints: ParameterConstraints {
                    min: Some(Real { bits: 0x3ff0000000000000 }),
                    max: Some(Real { bits: 0x4034000000000000 }),
                    must_be_positive: true,
                    must_be_integer: true,
                },
            },
        ],
        code: r#"
param g: Real = {g};        # Coupling
param n_max: Int = {n_max}; # Truncation

state atom: Qubit = |e>;
state cavity: Fock<n_max> = |0>;

operator sigma_p: Operator<2> = |e><g|;
operator sigma_m: Operator<2> = |g><e|;
operator a: Operator<n_max> = annihilation;
operator a_dag: Operator<n_max> = creation;

operator H_int: Operator<2*n_max> = 
    g * (tensor(sigma_p, a) + tensor(sigma_m, a_dag));

state psi: (Qubit, Fock<n_max>) = tensor(atom, cavity);
evolve psi under H_int for 10.0;

measure atom in computational;
measure cavity in fock;
"#.to_string(),
        tags: vec!["cavity".to_string(), "atom".to_string(), "coupling".to_string()],
        citations: vec![],
    }
}

/// The quantum Zeno effect under repeated measurement.
pub fn quantum_zeno() -> (t: Template)
    ensures
        t.id@ == "zeno"@,
{
    Template {
        id: "zeno".to_string(),
        name: "Quantum Zeno Effect".to_string(),
        description: "Frequent measurements freeze quantum evolution".to_string(),
        category: TemplateCategory::OpenSystems,
        parameters: vec![
            TemplateParameter {
                name: "n_measure".to_string(),
                description: "Number of intermediate measurements".to_string(),
                default_value: Real { bits: 0x4024000000000000 },
                constraints: ParameterConstraints {
                    min: Some(Real { bits: 0x0000000000000000 }),
                    max: Some(Real { bits: 0x4059000000000000 }),
                    must_be_positive: true,
                    must_be_integer: true,
                },
            },
        ],
        code: r#"
param omega: Real = 1.0;
param T: Real = 10.0;
param n_measure: Int = {n_measure};

state psi: Qubit = |0>;
operator H: Operator<2> = omega * sigma_x / 2;

for i in 0..n_measure {
    evolve psi under H for T/n_measure;
    measure psi in computational;
    if outcome == |1> {
        set psi = |0>;  # Reset on |1⟩
    }
}

measure psi in computational;
"#.to_string(),
        tags: vec!["zeno".to_string(), "measurement".to_string(), "dynamics".to_string()],
        citations: vec![],
    }
}

/// Grover's search on two qubits.
pub fn grover_search() -> (t: Template)
    ensures
        t.id@ == "grover"@,
{
    Template {
        id: "grover".to_string(),
        name: "Grover Search Algorithm".to_string(),
        description: "Quantum search with quadratic speedup".to_string(),
        category: TemplateCategory::ManyBody,
        parameters: vec![
            TemplateParameter {
                name: "n_qubits".to_string(),
                description: "Number of qubits (search space size 2^n)".to_string(),
                default_value: Real { bits: 0x4008000000000000 },
                constraints: ParameterConstraints {
                    min: Some(Real { bits: 0x3ff0000000000000 }),
                    max: Some(Real { bits: 0x4024000000000000 }),
                    must_be_positive: true,
                    must_be_integer: true,
                },
            },
            TemplateParameter {
                name: "target".to_string(),
                description: "Target state index to find".to_string(),
                default_value: Real { bits: 0x4014000000000000 },
                constraints: ParameterConstraints {
                    min: Some(Real { bits: 0x0000000000000000 }),
                    max: None,
                    must_be_positive: true,
                    must_be_integer: true,
                },
            },
        ],
        code: r#"
param n_qubits: Int = {n_qubits};
param target: Int = {target};

state psi: Qubit^n_qubits = |0>^n_qubits;

# Initialize superposition
for i in 0..n_qubits {
    apply hadamard to psi[i];
}

# Grover iterations (optimal = π/4 * sqrt(2^n))
param n_iter: Int = floor(pi/4 * sqrt(2^n_qubits));

for iter in 0..n_iter {
    # Oracle: flip phase of target state
    apply phase_oracle(target) to psi;
    
    # Diffusion operator
    for i in 0..n_qubits { apply hadamard to psi[i]; }
    apply inversion_about_zero to psi;
    for i in 0..n_qubits { apply hadamard to psi[i]; }
}

measure psi in computational with 1000;
"#.to_string(),
        tags: vec!["grover".to_string(), "search".to_string(), "algorithm".to_string()],
        citations: vec![],
    }
}

/// A variational eigensolver for molecular hydrogen.
pub fn vqe_h2() -> (t: Template)
    ensures
        t.id@ == "vqe_h2"@,
{
    Template {
        id: "vqe_h2".to_string(),
        name: "VQE for H₂ Molecule".to_string(),
        description: "Variational quantum eigensolver for hydrogen molecule".to_string(),
        category: TemplateCategory::MetrologyOptimization,
        parameters: vec![
            TemplateParameter {
                name: "bond_length".to_string(),
                description: "H-H bond length (Angstroms)".to_string(),
                default_value: Real { bits: 0x3fe7ae147ae147ae },
                constraints: ParameterConstraints {
                    min: Some(Real { bits: 0x3fd3333333333333 }),
                    max: Some(Real { bits: 0x4000000000000000 }),
                    must_be_positive: true,
                    must_be_integer: false,
                },
            },
        ],
        code: r#"
param R: Real = {bond_length};  # Bond length

# Hamiltonian in Pauli basis (from PySCF/OpenFermion)
operator H: Operator<4> = 
    -1.0523 * identity +
    0.3979 * (Z0 ⊗ Z1) +
    -0.3979 * (Z2 ⊗ Z3) +
    -0.0112 * (Z0 ⊗ Z2) +
    0.1809 * (X0 ⊗ X1 ⊗ Y2 ⊗ Y3);

# Ansatz: Hardware-efficient trial state
param theta: Real[6];  # Variational parameters

state psi: Qubit^4 = |0000>;

# Layer 1
for i in 0..4 { apply ry(theta[0]) to psi[i]; }
apply cnot to psi[0:1];
apply cnot to psi[2:3];

# Layer 2
for i in 0..4 { apply ry(theta[1]) to psi[i]; }
apply cnot to psi[1:2];

measure H on psi;  # Expectation value

# Fit to find optimal theta minimizing ⟨H⟩
fit theta to minimize expectation(H);
"#.to_string(),
        tags: vec!["vqe".to_string(), "optimization".to_string(), "chemistry".to_string()],
        citations: vec![],
    }
}

} // verus!
