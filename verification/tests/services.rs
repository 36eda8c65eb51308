use quantum_theory_engine::error::{EngineError, UnsupportedFeature, ValidationFault};
use quantum_theory_engine::executor::BackendConfig;
use quantum_theory_engine::job_queue::{
    best_fit_index, execute_job, full_grid, summarize, FitOutput, GridStrategy, Job, JobConfig, JobKind,
    JobOutput, JobResult, JobStatus, ParameterGrid, ParameterRange, ParameterScale, Priority,
    ProofOutput, QueueState, SweepSummary,
};
use quantum_theory_engine::logging::LogLevel;
use quantum_theory_engine::scalar::Real;
use quantum_theory_engine::text::{assignment, csv_fields, skip_line, split_on, CsvFields};
use quantum_theory_engine::stats::{MeasurementData, StatsMethod};
use quantum_theory_engine::streaming::{is_due, DataPoint, DataSource, RollingFitEngine};
use quantum_theory_engine::templates::{
    is_whole, Citation, ParameterConstraints, Template, TemplateArgument, TemplateCategory,
    TemplateParameter, TemplateRegistry,
};

fn num(x: f64) -> Real {
    Real { bits: x.to_bits() }
}

fn val(r: Real) -> f64 {
    f64::from_bits(r.bits)
}

fn job(id: u128, priority: Priority) -> Job {
    Job {
        id,
        kind: JobKind::Simulate { program: "test".to_string() },
        priority,
        params: vec![],
        config: JobConfig::default(),
    }
}

fn arg(name: &str, value: f64) -> TemplateArgument {
    TemplateArgument { name: name.to_string(), value: num(value), text: value.to_string() }
}

#[test]
fn test_template_registry() {
    let registry = TemplateRegistry::new();
    assert!(registry.get("rabi").is_some());
    assert!(registry.get("nonexistent").is_none());
}

#[test]
fn templates_test_template_instantiation() {
    let registry = TemplateRegistry::new();
    let params = vec![arg("omega", 2.0), arg("T", 5.0)];
    let code = registry.instantiate("rabi", &params).unwrap();
    assert!(code.contains("omega: Real = 2"));
    assert!(code.contains("T: Real = 5"));
}

#[test]
fn integration_tests_test_template_instantiation() {
    let registry = TemplateRegistry::new();
    let params = vec![arg("omega", 1.5), arg("T", 10.0)];
    let code = registry.instantiate("rabi", &params).expect("Failed to instantiate");
    assert!(code.contains("omega: Real = 1.5"));
    assert!(code.contains("T: Real = 10"));
}

#[test]
fn test_parameter_validation() {
    let registry = TemplateRegistry::new();
    let template = registry.get("rabi").unwrap();
    let param = &template.parameters[0];
    assert!(registry.validate_parameter(param, num(1.0)).is_ok());
    assert!(registry.validate_parameter(param, num(-1.0)).is_err());
}

#[test]
fn test_category_filtering() {
    let registry = TemplateRegistry::new();
    let single_qubit = registry.list_by_category(TemplateCategory::SingleQubit);
    assert!(!single_qubit.is_empty());
}

#[test]
fn builtin_templates_are_registered_in_order() {
    let registry = TemplateRegistry::new();
    let ids: Vec<&str> = [
        TemplateCategory::SingleQubit,
        TemplateCategory::TwoQubit,
        TemplateCategory::Cavity,
        TemplateCategory::OpenSystems,
        TemplateCategory::ManyBody,
        TemplateCategory::MetrologyOptimization,
    ]
    .into_iter()
    .flat_map(|c| registry.list_by_category(c))
    .map(|t| t.id.as_str())
    .collect();
    assert_eq!(ids, vec!["rabi", "ramsey", "bell_tomography", "jaynes_cummings", "zeno", "grover", "vqe_h2"]);
    let rabi = registry.get("rabi").unwrap();
    assert_eq!(rabi.name, "Rabi Oscillations");
    assert_eq!(val(rabi.parameters[1].default_value), 10.0);
    assert_eq!(rabi.citations[0].year, 1937);
    assert!(rabi.code.contains("{omega}") && rabi.code.contains("evolve psi under H for T;"));
}

#[test]
fn templates_are_found_by_text() {
    let registry = TemplateRegistry::new();
    let found = |q: &str| -> Vec<String> { registry.search(q).into_iter().map(|t| t.id.clone()).collect() };
    assert_eq!(found("RABI"), vec!["rabi", "jaynes_cummings"]);
    assert_eq!(found("oscillations of a driven"), vec!["rabi"]);
    assert_eq!(found("qubit"), found("QuBiT"));
    assert!(found("qubit").contains(&"rabi".to_string()));
    assert_eq!(found("chemistry"), vec!["vqe_h2"]);
    assert_eq!(found("no such thing"), Vec::<String>::new());
    assert_eq!(found("").len(), 7);
}

#[test]
fn registration_replaces_by_id() {
    let mut registry = TemplateRegistry::empty();
    let template = |name: &str| Template {
        id: "t".to_string(),
        name: name.to_string(),
        description: String::new(),
        category: TemplateCategory::Cavity,
        parameters: vec![],
        code: "a {x} b {x} {y}".to_string(),
        tags: vec![],
        citations: vec![Citation {
            authors: String::new(),
            title: String::new(),
            journal: String::new(),
            year: 2000,
            doi: None,
        }],
    };
    registry.register(template("first"));
    registry.register(template("second"));
    assert_eq!(registry.list_by_category(TemplateCategory::Cavity).len(), 1);
    assert_eq!(registry.get("t").unwrap().name, "second");
    // every occurrence is replaced, in the order of the arguments
    let code = registry.instantiate("t", &vec![arg("x", 1.0), arg("y", -0.5), arg("z", 3.0)]).unwrap();
    assert_eq!(code, "a 1 b 1 -0.5");
    let nested = TemplateArgument { name: "x".to_string(), value: num(0.0), text: "{y}".to_string() };
    assert_eq!(registry.instantiate("t", &vec![nested, arg("y", 2.0)]).unwrap(), "a 2 b 2 2");
    match registry.instantiate("missing", &vec![]) {
        Err(EngineError::NotFound(id)) => assert_eq!(id, "missing"),
        other => panic!("unexpected {:?}", other),
    }
}

#[test]
fn parameter_limits_are_checked_in_order() {
    let registry = TemplateRegistry::empty();
    let param = |min, max, must_be_positive, must_be_integer| TemplateParameter {
        name: "p".to_string(),
        description: String::new(),
        default_value: num(1.0),
        constraints: ParameterConstraints { min, max, must_be_positive, must_be_integer },
    };
    let name = || "p".to_string();
    let check = |p: &TemplateParameter, x: f64| registry.validate_parameter(p, num(x));
    let bounded = param(Some(num(-1.0)), Some(num(2.0)), true, true);
    assert_eq!(check(&bounded, 1.0), Ok(()));
    assert_eq!(check(&bounded, 2.0), Ok(()));
    assert_eq!(
        check(&bounded, -1.5),
        Err(EngineError::ValidationError(ValidationFault::BelowMinimum { name: name(), value: num(-1.5), min: num(-1.0) }))
    );
    assert_eq!(
        check(&bounded, 2.5),
        Err(EngineError::ValidationError(ValidationFault::AboveMaximum { name: name(), value: num(2.5), max: num(2.0) }))
    );
    assert_eq!(
        check(&bounded, 0.0),
        Err(EngineError::ValidationError(ValidationFault::NotPositive { name: name(), value: num(0.0) }))
    );
    assert_eq!(
        check(&bounded, -1.0),
        Err(EngineError::ValidationError(ValidationFault::NotPositive { name: name(), value: num(-1.0) }))
    );
    assert_eq!(
        check(&bounded, 1.5),
        Err(EngineError::ValidationError(ValidationFault::NotWhole { name: name(), value: num(1.5) }))
    );
    let free = param(None, None, false, false);
    for x in [f64::NAN, f64::INFINITY, -1e300, 0.5] {
        assert_eq!(check(&free, x), Ok(()));
    }
    // a value that is no number breaks no bound, and is not whole
    assert_eq!(
        check(&bounded, f64::NAN),
        Err(EngineError::ValidationError(ValidationFault::NotWhole { name: name(), value: num(f64::NAN) }))
    );
}

#[test]
fn whole_numbers_are_recognized() {
    let xs = [
        0.0, -0.0, 1.0, -1.0, 2.0, 3.0, 0.5, -0.5, 1.5, 1e-300, 5e-324, 0.999999999999, 1.0000000000000002,
        4503599627370496.0, 4503599627370495.5, 4503599627370497.0, 9007199254740992.0, 1e300, f64::MAX, 123456.0,
        123456.125, -77.0, -77.25, f64::INFINITY, f64::NEG_INFINITY, f64::NAN, 2251799813685248.5,
    ];
    for x in xs {
        assert_eq!(is_whole(num(x)), x.fract() == 0.0, "{}", x);
    }
}

#[test]
fn test_job_submission() {
    let mut queue = QueueState::new();
    let job_id = queue.submit(job(7, Priority::Normal), 0);
    assert_eq!(job_id, 7);
    assert_eq!(queue.status(job_id), Some(JobStatus::Queued { position: 0 }));
}

#[test]
fn test_full_job_submission_workflow() {
    let mut queue = QueueState::new();
    let job_id = queue.submit(job(11, Priority::Normal), 0);
    // a worker takes and finishes the job
    let taken = queue.next_job().unwrap();
    assert_eq!(taken, job_id);
    let output = execute_job(queue.get_job(taken).unwrap()).unwrap();
    queue.complete(JobResult { job_id: taken, started_at: 1, completed_at: 2, duration: 3, output });
    let status = queue.status(job_id);
    assert!(status.is_some());
    assert_eq!(status, Some(JobStatus::Complete));
}

#[test]
fn jobs_wait_in_order_of_priority() {
    let mut queue = QueueState::new();
    queue.submit(job(1, Priority::Normal), 0);
    queue.submit(job(2, Priority::Low), 0);
    queue.submit(job(3, Priority::High), 0);
    queue.submit(job(4, Priority::Normal), 0);
    queue.submit(job(5, Priority::Critical), 0);
    queue.submit(job(6, Priority::High), 0);
    let order: Vec<JobStatus> = (1..=6).map(|id| queue.status(id).unwrap()).collect();
    let position = |k: usize| JobStatus::Queued { position: k };
    // 5, 3, 6, 1, 4, 2
    assert_eq!(order, vec![position(3), position(5), position(1), position(4), position(0), position(2)]);
    assert_eq!(queue.next_job(), Some(5));
    assert_eq!(queue.next_job(), Some(3));
    assert_eq!(queue.status(5), Some(JobStatus::Running));
    assert_eq!(queue.status(6), Some(position(0)));
    queue.cancel(6);
    queue.cancel(3);
    assert_eq!(queue.status(6), None);
    assert_eq!(queue.status(3), None);
    assert_eq!(queue.status(1), Some(position(0)));
    assert_eq!(queue.status(99), None);
    let listed = queue.list_jobs();
    assert_eq!(listed.len(), 6);
    assert_eq!(listed[0], (1, position(0)));
    assert_eq!(listed[4], (5, JobStatus::Running));
    assert_eq!(listed[2], (3, position(0)));
    assert_eq!(queue.next_job(), Some(1));
    assert_eq!(queue.next_job(), Some(4));
    assert_eq!(queue.next_job(), Some(2));
    assert_eq!(queue.next_job(), None);
    assert!(queue.get_result(1).is_none());
    assert!(queue.get_job(4).is_some() && queue.get_job(40).is_none());
    assert!(Priority::Low.below(Priority::Normal) && !Priority::High.below(Priority::High));
    assert!(Priority::Low < Priority::Critical);
}

#[test]
fn jobs_give_their_canned_outputs() {
    let with_kind = |kind| Job { id: 1, kind, priority: Priority::Normal, params: vec![], config: JobConfig::default() };
    let s = |x: &str| x.to_string();
    match execute_job(&with_kind(JobKind::Simulate { program: s("p") })).unwrap() {
        JobOutput::Simulation(out) => {
            assert!(out.states.is_empty());
            assert_eq!(val(out.diagnostics.max_trace_drift), 1e-10);
            assert_eq!(val(out.diagnostics.min_eigenvalue), -1e-11);
        }
        other => panic!("unexpected {:?}", other),
    }
    assert_eq!(
        execute_job(&with_kind(JobKind::Prove { statement: s("x") })),
        Ok(JobOutput::Proof(ProofOutput { proven: true, steps: 5, certificate_hash: Some(s("abc123")) }))
    );
    match execute_job(&with_kind(JobKind::Fit { program: s("p"), data_path: s("d") })).unwrap() {
        JobOutput::Fit(fit) => {
            assert_eq!(fit.best_params.iter().map(|p| val(*p)).collect::<Vec<f64>>(), vec![1.0, 0.2]);
            assert_eq!(fit.uncertainties.iter().map(|p| val(*p)).collect::<Vec<f64>>(), vec![0.01, 0.02]);
            assert_eq!(val(fit.log_likelihood), -100.0);
        }
        other => panic!("unexpected {:?}", other),
    }
    match execute_job(&with_kind(JobKind::Test { program: s("p"), data_path: s("d") })).unwrap() {
        JobOutput::Test(t) => {
            assert_eq!((val(t.chi_square), val(t.p_value), t.decision.as_str()), (45.3, 0.42, "Accept"));
        }
        other => panic!("unexpected {:?}", other),
    }
    let grid = ParameterGrid {
        params: vec![ParameterRange {
            name: s("x"),
            start: num(0.0),
            end: num(1.0),
            steps: 3,
            scale: ParameterScale::Linear,
        }],
        strategy: GridStrategy::FullGrid,
    };
    let sweep = JobKind::Sweep { base_job: Box::new(job(2, Priority::Low)), param_grid: grid };
    assert_eq!(execute_job(&with_kind(sweep)), Err(EngineError::Unsupported(UnsupportedFeature::NestedSweep)));
    let config = JobConfig::default();
    assert_eq!((config.timeout, config.max_retries, config.backend), (300_000, 3, BackendConfig::default()));
}

#[test]
fn best_fit_is_the_last_of_the_largest() {
    let fit = |id: u128, ll: f64| JobResult {
        job_id: id,
        started_at: 0,
        completed_at: 0,
        duration: 0,
        output: JobOutput::Fit(FitOutput { best_params: vec![], uncertainties: vec![], log_likelihood: num(ll) }),
    };
    let proof = JobResult {
        job_id: 9,
        started_at: 0,
        completed_at: 0,
        duration: 0,
        output: JobOutput::Proof(ProofOutput { proven: true, steps: 1, certificate_hash: None }),
    };
    assert_eq!(best_fit_index(&vec![]), None);
    assert_eq!(best_fit_index(&vec![proof]), None);
    assert_eq!(best_fit_index(&vec![fit(1, -5.0), fit(2, -1.0), fit(3, -3.0)]), Some(1));
    assert_eq!(best_fit_index(&vec![fit(1, -1.0), fit(2, -3.0), fit(3, -1.0)]), Some(2));
    assert_eq!(
        summarize(5, 3, 17),
        SweepSummary { total_runs: 5, successful: 3, failed: 2, total_duration: 17 }
    );
    assert_eq!(StatsMethod::ChiSquare, StatsMethod::ChiSquare);
}

#[test]
fn test_rolling_fit_buffer() {
    let mut engine = RollingFitEngine::new(10, vec![num(1.0), num(0.5)]);
    for i in 0..15 {
        engine.add_data(DataPoint {
            observable: "sigma_z".to_string(),
            value: num(0.5 + (i as f64) * 0.01),
            uncertainty: num(0.01),
            metadata: "{}".to_string(),
        });
    }
    assert_eq!(engine.len(), 10);
    assert!(engine.should_refit());
}

#[test]
fn rolling_fit_keeps_the_newest_points() {
    let mut engine = RollingFitEngine::new(3, vec![num(1.0), num(0.5)]);
    assert!(matches!(engine.refit(), Err(EngineError::InvalidState(_))));
    let point = |name: &str, v: f64| DataPoint {
        observable: name.to_string(),
        value: num(v),
        uncertainty: num(v / 10.0),
        metadata: "{}".to_string(),
    };
    for (name, v) in [("a", 1.0), ("b", 2.0), ("a", 3.0), ("c", 4.0), ("b", 5.0)] {
        engine.add_data(point(name, v));
    }
    let data = engine.buffer_to_measurement_data();
    assert_eq!(data.num_shots, 3);
    let series: Vec<(&str, Vec<f64>)> =
        data.observables.iter().map(|s| (s.name.as_str(), s.values.iter().map(|v| val(*v)).collect())).collect();
    assert_eq!(series, vec![("a", vec![3.0]), ("c", vec![4.0]), ("b", vec![5.0])]);
    assert_eq!(val(data.observables[2].uncertainties[0]), 0.5);
    engine.add_data(point("c", 6.0));
    let data = engine.buffer_to_measurement_data();
    assert_eq!(data.observables.len(), 2);
    assert_eq!(data.observables[0].values.iter().map(|v| val(*v)).collect::<Vec<f64>>(), vec![4.0, 6.0]);
    let fit = engine.refit().unwrap();
    assert_eq!(fit.best_params, vec![num(1.0), num(0.5)]);
    assert_eq!(fit.uncertainties, vec![num(0.01), num(0.01)]);
    assert_eq!(fit.fisher_info, vec![vec![num(1.0); 2]; 2]);
    assert_eq!((val(fit.log_likelihood), fit.converged, fit.iterations), (-100.0, false, 1));
    let (estimate, age) = engine.current_estimate();
    assert_eq!(estimate, &vec![num(1.0), num(0.5)]);
    assert!(age.is_some());
    // right after a fit the next one is not due
    assert!(!engine.should_refit());
    assert!(is_due(None, 5) && is_due(Some(5), 5) && !is_due(Some(4), 5));
}

struct Fixed {
    active: bool,
}

impl DataSource for Fixed {
    fn id(&self) -> &str {
        "fixed"
    }

    fn start(&mut self) -> Result<(), EngineError> {
        self.active = true;
        Ok(())
    }

    fn stop(&mut self) -> Result<(), EngineError> {
        self.active = false;
        Ok(())
    }

    fn is_active(&self) -> bool {
        self.active
    }
}

#[test]
fn data_sources_can_be_implemented() {
    let mut source = Fixed { active: false };
    assert_eq!(source.id(), "fixed");
    source.start().unwrap();
    assert!(source.is_active());
    source.stop().unwrap();
    assert!(!source.is_active());
}

#[test]
fn test_csv_line_parsing() {
    let point = csv_fields("sigma_z,0.5,0.01").unwrap();
    assert_eq!(point.observable, "sigma_z");
    assert_eq!(point.value.parse::<f64>().unwrap(), 0.5);
    assert_eq!(point.uncertainty.parse::<f64>().unwrap(), 0.01);
}

#[test]
fn test_parameter_grid() {
    // x: 3 values from 0 to 1, y: 2 values from 1 to 10 on a logarithmic scale
    let linear: Vec<Real> = (0..3).map(|i| num(0.0 + (i as f64 / 2.0) * (1.0 - 0.0))).collect();
    let log: Vec<Real> = (0..2)
        .map(|i| num((1f64.ln() + (i as f64 / 1.0) * (10f64.ln() - 1f64.ln())).exp()))
        .collect();
    let combos = full_grid(&vec![("x".to_string(), linear), ("y".to_string(), log)]);
    assert_eq!(combos.len(), 6); // 3 × 2
}

#[test]
fn test_parameter_sweep() {
    let values: Vec<Real> = (0..5).map(|i| num(0.5 + (i as f64 / 4.0) * (2.0 - 0.5))).collect();
    let combos = full_grid(&vec![("omega".to_string(), values)]);
    let mut queue = QueueState::new();
    let mut job_ids = Vec::new();
    for (k, params) in combos.into_iter().enumerate() {
        let mut j = job(100 + k as u128, Priority::Normal);
        j.params = params;
        job_ids.push(queue.submit(j, 0));
    }
    assert_eq!(job_ids.len(), 5);
    assert_eq!(queue.get_job(104).unwrap().params, vec![("omega".to_string(), num(2.0))]);
}

#[test]
fn full_grid_turns_the_first_axis_slowest() {
    let axis = |name: &str, xs: &[f64]| (name.to_string(), xs.iter().map(|x| num(*x)).collect::<Vec<Real>>());
    let grid = full_grid(&vec![axis("a", &[1.0, 2.0]), axis("b", &[10.0, 20.0, 30.0])]);
    let plain: Vec<Vec<(String, f64)>> =
        grid.iter().map(|p| p.iter().map(|(n, v)| (n.clone(), val(*v))).collect()).collect();
    let point = |a: f64, b: f64| vec![("a".to_string(), a), ("b".to_string(), b)];
    assert_eq!(
        plain,
        vec![point(1.0, 10.0), point(1.0, 20.0), point(1.0, 30.0), point(2.0, 10.0), point(2.0, 20.0), point(2.0, 30.0)]
    );
    assert_eq!(full_grid(&vec![]), vec![Vec::<(String, Real)>::new()]);
    assert!(full_grid(&vec![axis("a", &[1.0]), axis("b", &[])]).is_empty());
}

#[test]
fn lines_are_cut_into_fields() {
    let cut = |s: &str, c: char| split_on(s, c);
    assert_eq!(cut("a,b,c", ','), vec!["a", "b", "c"]);
    assert_eq!(cut("", ','), vec![""]);
    assert_eq!(cut(",", ','), vec!["", ""]);
    assert_eq!(cut("a,,b,", ','), vec!["a", "", "b", ""]);
    assert_eq!(cut("αβ:γ", ':'), vec!["αβ", "γ"]);
    for s in ["omega:0.5:2.0:10", "x", "::", "a:b:"] {
        assert_eq!(cut(s, ':'), s.split(':').map(|p| p.to_string()).collect::<Vec<String>>());
    }
    assert_eq!(
        csv_fields(" sigma_x , 1.5 ,\t0.25 , extra"),
        Ok(CsvFields { observable: "sigma_x".to_string(), value: "1.5".to_string(), uncertainty: "0.25".to_string() })
    );
    assert!(matches!(csv_fields("a,b"), Err(EngineError::ParseError { .. })));
    assert!(skip_line("") && skip_line("   \t") && skip_line("# comment") && skip_line("#"));
    assert!(!skip_line("a,b,c") && !skip_line(" # indented"));
    assert_eq!(assignment("omega=1.5"), Some(("omega".to_string(), "1.5".to_string())));
    assert_eq!(assignment("a=b=c"), Some(("a".to_string(), "b".to_string())));
    assert_eq!(assignment("omega"), None);
}

#[test]
fn names_stand_for_levels_and_categories() {
    assert_eq!(LogLevel::parse("trace"), LogLevel::Trace);
    assert_eq!(LogLevel::parse("DEBUG"), LogLevel::Debug);
    assert_eq!(LogLevel::parse("Info"), LogLevel::Info);
    assert_eq!(LogLevel::parse("warn"), LogLevel::Warn);
    assert_eq!(LogLevel::parse("ERROR"), LogLevel::Error);
    assert_eq!(LogLevel::parse("loud"), LogLevel::Info);
    assert_eq!(TemplateCategory::parse("single-qubit"), Some(TemplateCategory::SingleQubit));
    assert_eq!(TemplateCategory::parse("two-qubit"), Some(TemplateCategory::TwoQubit));
    assert_eq!(TemplateCategory::parse("cavity"), Some(TemplateCategory::Cavity));
    assert_eq!(TemplateCategory::parse("Cavity"), None);
}

#[test]
fn test_version() {
    assert!(!quantum_theory_engine::VERSION.is_empty());
}

#[test]
fn test_end_to_end_workflow() {
    let registry = TemplateRegistry::new();
    let params = vec![arg("omega", 1.0), arg("T", 10.0)];
    let code = registry.instantiate("rabi", &params).expect("Failed to instantiate");
    assert!(code.contains("param omega: Real = 1;"));
    assert!(code.contains("param T: Real = 10;"));
    assert!(!code.contains("{omega}") && !code.contains("{T}"));
}

#[test]
fn test_concurrent_job_execution() {
    let mut queue = QueueState::new();
    let mut job_ids = Vec::new();
    for i in 0..10u128 {
        let priority = if i % 2 == 0 { Priority::High } else { Priority::Normal };
        let mut j = job(1000 + i, priority);
        j.kind = JobKind::Simulate { program: format!("program_{}", i) };
        job_ids.push(queue.submit(j, 0));
    }
    // some of the jobs are taken and finished
    for _ in 0..4 {
        let taken = queue.next_job().unwrap();
        let output = execute_job(queue.get_job(taken).unwrap()).unwrap();
        queue.complete(JobResult { job_id: taken, started_at: 0, completed_at: 0, duration: 0, output });
    }
    let all_jobs = queue.list_jobs();
    assert!(all_jobs.len() >= 10);
    // the urgent jobs went first, in the order they came
    let done: Vec<u128> = all_jobs.iter().filter(|(_, s)| *s == JobStatus::Complete).map(|(id, _)| *id).collect();
    assert_eq!(done, vec![1000, 1002, 1004, 1006]);
    assert_eq!(queue.status(1008), Some(JobStatus::Queued { position: 0 }));
    assert_eq!(queue.status(1001), Some(JobStatus::Queued { position: 1 }));
    assert!(queue.get_result(1002).is_some());
}

#[test]
fn test_csv_loading() {
    let lines = ["# Observable, Value, Uncertainty", "sigma_z, 0.5, 0.01", "sigma_x, -0.2, 0.02", "", "sigma_z, 0.48, 0.01"];
    let mut data = MeasurementData::new();
    for line in lines {
        if skip_line(line) {
            continue;
        }
        let fields = csv_fields(line).expect("Failed to load measurements");
        let value: f64 = fields.value.parse().unwrap();
        let uncertainty: f64 = fields.uncertainty.parse().unwrap();
        data.record(&fields.observable, num(value), num(uncertainty));
    }
    assert_eq!(data.num_shots, 3);
    assert!(data.observables.iter().any(|s| s.name == "sigma_z"));
    assert!(data.observables.iter().any(|s| s.name == "sigma_x"));
    let sigma_z = data.observables.iter().find(|s| s.name == "sigma_z").unwrap();
    assert_eq!(sigma_z.values.len(), 2); // Two sigma_z measurements
    assert_eq!(sigma_z.values.iter().map(|v| val(*v)).collect::<Vec<f64>>(), vec![0.5, 0.48]);
    assert_eq!(data.observables[1].uncertainties, vec![num(0.02)]);
}
