use esp_examples::fade::{FadeStep, Fader};

fn steps(f: &mut Fader, n: usize) -> Vec<FadeStep> {
    (0..n).map(|_| f.step()).collect()
}

#[test]
fn sweeps_up_then_down() {
    let mut f = Fader::new(0, 3);
    assert_eq!(
        steps(&mut f, 10),
        vec![
            FadeStep::Duty(0),
            FadeStep::Duty(1),
            FadeStep::Duty(2),
            FadeStep::Turn,
            FadeStep::Duty(2),
            FadeStep::Duty(1),
            FadeStep::Duty(0),
            FadeStep::Turn,
            FadeStep::Duty(0),
            FadeStep::Duty(1),
        ]
    );
}

#[test]
fn bare_metal_sweep_covers_zero_to_ninety_nine() {
    let mut f = Fader::new(0, 100);
    let up = steps(&mut f, 101);
    assert_eq!(up[0], FadeStep::Duty(0));
    assert_eq!(up[99], FadeStep::Duty(99));
    assert_eq!(up[100], FadeStep::Turn);
    let down = steps(&mut f, 101);
    assert_eq!(down[0], FadeStep::Duty(99));
    assert_eq!(down[99], FadeStep::Duty(0));
    assert_eq!(down[100], FadeStep::Turn);
}

#[test]
fn empty_range_only_turns() {
    let mut f = Fader::new(5, 5);
    assert_eq!(steps(&mut f, 3), vec![FadeStep::Turn, FadeStep::Turn, FadeStep::Turn]);
}

#[test]
fn offset_range() {
    let mut f = Fader::new(10, 12);
    assert_eq!(
        steps(&mut f, 6),
        vec![
            FadeStep::Duty(10),
            FadeStep::Duty(11),
            FadeStep::Turn,
            FadeStep::Duty(11),
            FadeStep::Duty(10),
            FadeStep::Turn,
        ]
    );
}
