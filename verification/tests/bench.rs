use wallpaper_core::bench::Readings;

/// The opening samples are a decoder being built, which is not what the
/// table claims to measure.
#[test]
fn the_first_samples_are_dropped() {
    let readings = Readings {
        cpu: vec![90.0f32, 10.0, 10.0, 10.0, 10.0, 10.0],
        ram: vec![900, 100, 100, 100, 100, 100],
        fps: vec![0.0f32, 30.0, 30.0, 30.0, 30.0, 30.0],
    };
    let (cpu, ram, _) = readings.settled();
    assert_eq!(cpu.len(), 5);
    assert!(cpu.iter().all(|c| *c < 50.0), "{cpu:?}");
    assert!(ram.iter().all(|r| *r < 500), "{ram:?}");
}

/// A single sample must still produce a table rather than dividing by
/// the number of samples it dropped.
#[test]
fn one_sample_is_still_a_table() {
    let readings = Readings {
        cpu: vec![12.0f32],
        ram: vec![120],
        fps: vec![30.0f32],
    };
    let (cpu, ram, fps) = readings.settled();
    assert!(cpu.is_empty() && ram.is_empty() && fps.is_empty());
}

#[test]
fn a_long_run_drops_a_sixth_of_it() {
    let readings = Readings {
        cpu: (0..24).map(|i| i as f32).collect(),
        ram: (0..24).collect(),
        fps: (0..20).map(|i| i as f32).collect(),
    };
    let (cpu, ram, fps) = readings.settled();
    assert_eq!((cpu.len(), ram.len(), fps.len()), (20, 20, 16));
    assert_eq!((cpu[0], ram[0], fps[0]), (4.0, 4, 4.0));
}
