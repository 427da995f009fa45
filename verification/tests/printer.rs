use brainfuck::printer::Printer;

fn quiet_checksum(values: &[i32]) -> i32 {
    let mut p = Printer::new(true);
    for v in values {
        p.print(*v);
    }
    p.get_checksum()
}

#[test]
fn checksum_of_no_output_is_zero() {
    assert_eq!(Printer::new(true).get_checksum(), 0);
    assert_eq!(Printer::new(false).get_checksum(), 0);
}

#[test]
fn new_printer_reports_its_mode() {
    assert!(Printer::new(true).is_quiet());
    assert!(!Printer::new(false).is_quiet());
    assert!(!Printer::default().is_quiet());
}

#[test]
fn checksum_of_one_value() {
    assert_eq!(quiet_checksum(&[3]), 771);
    assert_eq!(quiet_checksum(&[72]), 18504);
}

#[test]
fn checksum_of_hello_world() {
    let values: Vec<i32> = "Hello World!\n".chars().map(|c| c as i32).collect();
    assert_eq!(quiet_checksum(&values), 42059);
}

#[test]
fn checksum_depends_on_order() {
    assert_eq!(quiet_checksum(&[1, 2]), 1027);
    assert_eq!(quiet_checksum(&[2, 1]), 1283);
}

#[test]
fn checksum_cannot_tell_zero_from_255() {
    assert_eq!(quiet_checksum(&[0, 255]), quiet_checksum(&[255, 0]));
    assert_eq!(quiet_checksum(&[255]), 0);
}

#[test]
fn checksum_is_taken_over_the_low_byte() {
    assert_eq!(quiet_checksum(&[256 + 3]), quiet_checksum(&[3]));
    assert_eq!(quiet_checksum(&[-1]), quiet_checksum(&[255]));
    assert_eq!(quiet_checksum(&[-253]), quiet_checksum(&[3]));
    assert_eq!(quiet_checksum(&[i32::MAX]), quiet_checksum(&[255]));
    assert_eq!(quiet_checksum(&[i32::MIN]), quiet_checksum(&[0]));
}

#[test]
fn checksum_fits_in_sixteen_bits() {
    let mut p = Printer::new(true);
    for v in 0..2000 {
        p.print(v * 37);
        let c = p.get_checksum();
        assert!(0 <= c && c < 65536);
        assert!((c & 0xff) < 255 && (c >> 8) < 255);
    }
}

#[test]
fn quiet_printer_queues_nothing() {
    let mut p = Printer::new(true);
    p.print(65);
    assert!(p.take_output().is_empty());
}

#[test]
fn live_printer_queues_the_low_byte() {
    let mut p = Printer::new(false);
    p.print(3);
    p.print(256 + 65);
    p.print(-1);
    assert_eq!(p.take_output(), vec![3u8, 65, 255]);
    assert_eq!(p.get_checksum(), 0);
}

#[test]
fn take_output_empties_the_queue() {
    let mut p = Printer::new(false);
    p.print(1);
    assert_eq!(p.take_output(), vec![1u8]);
    assert!(p.take_output().is_empty());
    p.print(2);
    p.print(3);
    assert_eq!(p.take_output(), vec![2u8, 3]);
}
