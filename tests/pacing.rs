use chip8::pacing::Pacer;

#[test]
fn deadlines() {
    let mut p = Pacer::new(0);
    let d = p.poll(1_000, false);
    assert!(!d.input && !d.instruction && !d.timer && !d.display);
    let d = p.poll(2_001, false);
    assert!(d.instruction && !d.timer && !d.display && !d.input);
    assert_eq!(p.instruction, 2_001);
    let d = p.poll(10_001, true);
    assert!(d.input && d.instruction && d.display && !d.timer);
    let d = p.poll(17_001, false);
    assert!(d.timer && !d.input);
    let d = p.poll(300_000, false);
    assert!(d.input && d.instruction && d.timer && d.display);
    let d = p.poll(5, false);
    assert!(!d.input && !d.instruction && !d.timer && !d.display);
}
