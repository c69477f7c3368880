use flashield_lite::flash::{FlashObject, SimulatedFlash};

#[test]
fn accounts_for_logical_and_physical_writes() {
    let mut flash = SimulatedFlash::new(1024, 64);

    assert_eq!(flash.write_object("a".to_string(), 40), 0);
    assert_eq!(flash.write_object("b".to_string(), 40), 0);
    flash.finish();

    assert_eq!(flash.logical_bytes_admitted(), 80);
    assert_eq!(flash.flash_bytes_written(), 128);
    assert_eq!(flash.segment_flushes(), 2);
}

#[test]
fn empty_object_is_not_written() {
    let mut flash = SimulatedFlash::new(1024, 64);
    assert_eq!(flash.write_object("a".to_string(), 0), 0);
    flash.finish();
    assert_eq!(flash.logical_bytes_admitted(), 0);
    assert_eq!(flash.flash_bytes_written(), 0);
    assert_eq!(flash.get("a"), None);
}

#[test]
fn finish_is_idempotent() {
    let mut flash = SimulatedFlash::new(1024, 64);
    flash.write_object("a".to_string(), 10);
    flash.finish();
    flash.finish();
    assert_eq!(flash.flash_bytes_written(), 64);
    assert_eq!(flash.segment_flushes(), 1);
}

#[test]
fn large_object_fills_several_segments() {
    let mut flash = SimulatedFlash::new(1024, 64);
    flash.write_object("a".to_string(), 200);
    assert_eq!(flash.flash_bytes_written(), 192);
    assert_eq!(flash.segment_flushes(), 3);
    flash.finish();
    assert_eq!(flash.flash_bytes_written(), 256);
    assert_eq!(flash.segment_flushes(), 4);
    assert_eq!(flash.logical_bytes_admitted(), 200);
}

#[test]
fn write_then_get_and_delete() {
    let mut flash = SimulatedFlash::new(1024, 64);
    flash.write_object("a".to_string(), 10);
    assert_eq!(flash.get("a"), Some(FlashObject::new(10)));
    flash.delete("a");
    assert_eq!(flash.get("a"), None);
}

#[test]
fn flash_index_evicts_when_full() {
    let mut flash = SimulatedFlash::new(100, 64);
    assert_eq!(flash.write_object("a".to_string(), 60), 0);
    assert_eq!(flash.write_object("b".to_string(), 60), 1);
    assert_eq!(flash.get("a"), None);
    assert_eq!(flash.object_count(), 1);
}

#[test]
fn final_partial_segment_is_charged_as_a_whole_one() {
    let mut flash = SimulatedFlash::new(1024, 64);
    flash.write_object("a".to_string(), 40);
    flash.write_object("b".to_string(), 100);
    flash.delete("a");
    flash.write_object("c".to_string(), 10);
    assert_eq!(flash.logical_bytes_admitted(), 150);
    assert_eq!(flash.flash_bytes_written(), 128);
    assert_eq!(flash.buffered_bytes(), 22);
    flash.finish();
    assert_eq!(flash.segment_flushes(), 3);
    assert_eq!(flash.flash_bytes_written(), 192);
    assert!(flash.flash_bytes_written() - flash.logical_bytes_admitted() < 64);
}
