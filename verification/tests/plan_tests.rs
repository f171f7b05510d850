use dotenv_buildpack::plan::{
    DetectOutcome, DotenvBuildpack, DotenvLayer, MergePolicy, Scope,
};

#[test]
fn detection_passes_exactly_when_the_file_is_present() {
    match DotenvBuildpack.detect(true) {
        DetectOutcome::Pass(plan) => {
            assert_eq!(plan.provided, vec!["dotenv".to_string()]);
            assert_eq!(plan.required, vec!["dotenv".to_string()]);
        },
        DetectOutcome::Fail => panic!("detection must pass when the file is present"),
    }
}

#[test]
fn detection_fails_when_no_file_is_present() {
    assert!(matches!(DotenvBuildpack.detect(false), DetectOutcome::Fail));
}

#[test]
fn layer_applies_at_build_and_launch_and_is_not_cached() {
    let t = DotenvLayer.types();
    assert!(t.build);
    assert!(t.launch);
    assert!(!t.cache);
}

#[test]
fn layer_patch_has_one_launch_append_modification_per_valid_line() {
    let patch = DotenvLayer.create("FOO=bar\nBAZ=qux\n# note\nBROKEN");
    assert_eq!(patch.modifications.len(), 2);
    assert_eq!(patch.modifications[0].name, "FOO");
    assert_eq!(patch.modifications[0].value, "bar");
    assert_eq!(patch.modifications[1].name, "BAZ");
    assert_eq!(patch.modifications[1].value, "qux");
    for m in &patch.modifications {
        assert_eq!(m.scope, Scope::Launch);
        assert_eq!(m.policy, MergePolicy::Append);
    }
}

#[test]
fn production_suffix_scenario() {
    let metadata = dotenv_buildpack::filename::DotenvBuildpackMetadata {
        dotenv_suffix: "production".to_string(),
    };
    assert_eq!(metadata.filename(None), ".env.production");
    // The orchestrator finds that file in the app directory, so detection
    // passes and the build parses its contents into the layer's patch.
    assert!(matches!(DotenvBuildpack.detect(true), DetectOutcome::Pass(_)));
    let patch = DotenvLayer.create("KEY=value\n");
    assert_eq!(patch.modifications.len(), 1);
    assert_eq!(patch.modifications[0].name, "KEY");
    assert_eq!(patch.modifications[0].value, "value");
}

#[test]
fn empty_contents_give_an_empty_patch() {
    assert_eq!(DotenvLayer.create("").modifications.len(), 0);
}
