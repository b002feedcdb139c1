use survey_pipeline::dispatch::{
    build_populations, find_model, resolve_model, resolve_population, resolve_too_population,
    BuildError, ModelKind, PipelineError, PopulationKind,
};

fn only(place: usize) -> Vec<bool> {
    (0..11).map(|i| i == place).collect()
}

#[test]
fn each_kind_of_population_is_recognized() {
    let kinds = vec![
        PopulationKind::Kilonova,
        PopulationKind::FixedMetzgerKilonova,
        PopulationKind::Bu2026Kilonova,
        PopulationKind::FixedBu2026Kilonova,
        PopulationKind::SupernovaIa,
        PopulationKind::SupernovaII,
        PopulationKind::Tde,
        PopulationKind::Fbot,
        PopulationKind::Grb,
        PopulationKind::OnAxisGrb,
        PopulationKind::OffAxisGrb,
    ];
    for (place, kind) in kinds.iter().enumerate() {
        assert_eq!(resolve_population(&only(place)).unwrap(), *kind);
    }
}

#[test]
fn the_first_kind_that_fits_is_taken() {
    let all = vec![true; 11];
    assert_eq!(resolve_population(&all).unwrap(), PopulationKind::Kilonova);
    let some: Vec<bool> = (0..11).map(|i| i == 6 || i == 9).collect();
    assert_eq!(resolve_population(&some).unwrap(), PopulationKind::Tde);
}

#[test]
fn unknown_populations_are_refused() {
    let refusal = resolve_population(&vec![false; 11]).unwrap_err();
    assert!(matches!(refusal, PipelineError::UnsupportedPopulation));
    assert_eq!(refusal.message(), "Unsupported population type");
    assert!(resolve_population(&vec![]).is_err());
    assert!(resolve_population(&only(11)).is_err());
}

#[test]
fn only_kilonovae_follow_gravitational_waves() {
    assert_eq!(resolve_too_population(&only(3)).unwrap(), PopulationKind::FixedBu2026Kilonova);
    let refusal = resolve_too_population(&only(4)).unwrap_err();
    assert!(matches!(refusal, PipelineError::UnsupportedTooPopulation));
    assert_eq!(refusal.message(), "Unsupported population type for ToO simulation");
}

#[test]
fn populations_are_built_until_one_fails() {
    let build = |i: usize, kind: PopulationKind| -> Result<(usize, PopulationKind), String> {
        if kind == PopulationKind::Grb {
            Err(format!("population {}", i))
        } else {
            Ok((i, kind))
        }
    };
    let built = build_populations(&vec![only(4), only(0)], &build).unwrap();
    assert_eq!(built, vec![(0, PopulationKind::SupernovaIa), (1, PopulationKind::Kilonova)]);
    let rejected = build_populations(&vec![only(0), only(8), only(20)], &build).unwrap_err();
    assert!(matches!(rejected, BuildError::Rejected(reason) if reason == "population 1"));
    let refused = build_populations(&vec![only(0), only(20), only(8)], &build).unwrap_err();
    assert!(matches!(refused, BuildError::Refused(PipelineError::UnsupportedPopulation)));
    assert!(build_populations(&vec![], &build).unwrap().is_empty());
}

#[test]
fn unknown_models_are_called_back() {
    assert_eq!(resolve_model(true, true, true), ModelKind::MetzgerKn);
    assert_eq!(resolve_model(false, true, true), ModelKind::Blastwave);
    assert_eq!(resolve_model(false, false, true), ModelKind::Parametric);
    assert_eq!(resolve_model(false, false, false), ModelKind::Callback);
}

#[test]
fn models_are_found_by_type() {
    let names = vec!["SNIa".to_string(), "Kilonova".to_string()];
    assert_eq!(find_model(&names, &"Kilonova".to_string()), Some(1));
    assert_eq!(find_model(&names, &"TDE".to_string()), None);
}

#[test]
fn refusals_name_their_reason() {
    let unknown = PipelineError::UnknownStrategy { name: "gold".to_string() };
    assert_eq!(
        unknown.message(),
        "Unknown ToO strategy 'gold'. Available: rubin_gold, rubin_silver, ztf, ultrasat, uvex"
    );
    assert_eq!(PipelineError::SourceIndexOutOfRange.message(), "source index out of range");
}
