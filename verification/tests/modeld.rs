use lisa::catalog::{assess, recommend, Catalog, Fit, HardwareProfile, ModelEntry};

fn hw(ram: u64, tier: u8) -> HardwareProfile {
    HardwareProfile {
        os: "linux".into(),
        arch: "x86_64".into(),
        total_ram_gb: ram,
        unified_memory: false,
        gpu_nodes: 1,
        npu_nodes: 0,
        tier,
    }
}

fn model(min: Option<u32>) -> ModelEntry {
    ModelEntry {
        id: "m".into(),
        task: "system".into(),
        tiers: vec![2],
        license: "Apache-2.0".into(),
        engine: "llama-server".into(),
        source: None,
        blake3: None,
        min_ram_gb: min,
        notes: None,
        revoked: false,
    }
}

#[test]
fn fit_tracks_ram_against_requirement() {
    // 8 GB box, model wants 16 → too big.
    assert_eq!(assess(&model(Some(16)), &hw(8, 1)), Fit::TooBig);
    // 32 GB box, model wants 16 → comfortable.
    assert_eq!(assess(&model(Some(16)), &hw(32, 3)), Fit::Runs);
    // 16 GB box, model wants 16 → fits but tight (reserved headroom).
    assert_eq!(assess(&model(Some(16)), &hw(16, 2)), Fit::Tight);
    // Unknown requirement on a small box → treated as tiny, runs.
    assert_eq!(assess(&model(None), &hw(8, 1)), Fit::Runs);
}

#[test]
fn recommend_skips_revoked_models_and_keeps_catalog_order() {
    let mut big = model(Some(40));
    big.id = "qwen3-30b".into();
    let mut gone = model(Some(1));
    gone.id = "revoked".into();
    gone.revoked = true;
    let mut small = model(Some(2));
    small.id = "small".into();
    small.notes = Some("fast".into());
    let cat = Catalog { catalog_version: 1, models: vec![big, gone, small] };
    let recs = recommend(&cat, &hw(16, 2));
    assert_eq!(recs.len(), 2);
    assert_eq!(recs[0].id, "qwen3-30b");
    assert_eq!(recs[0].fit, Fit::TooBig);
    assert_eq!(recs[1].id, "small");
    assert_eq!(recs[1].fit, Fit::Runs);
    assert_eq!(recs[1].note, "fast");
    assert_eq!(recs[0].note, "");
}

#[test]
fn fit_labels() {
    assert_eq!(Fit::Runs.label(), "runs on your machine");
    assert_eq!(Fit::Tight.label(), "tight — runs but leaves little headroom");
    assert_eq!(Fit::TooBig.label(), "too big for this machine — use a remote provider");
}
