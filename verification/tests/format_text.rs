use gpuflo::model::{ObservationState, Timestamp};
use gpuflo::source::Reading;
use gpuflo::ui::cat::{footprint, sprite};
use gpuflo::ui::format::{
    clip, elapsed, iec_bytes, memory_cell, pool_label, reading_phrase, round_half_even_exec,
    short_name, unavailable_phrase,
};
use gpuflo::ui::layout::{automatic, centered, Rect, Surface};

#[test]
fn iec_units_use_powers_of_1024_with_one_decimal() {
    assert_eq!(iec_bytes(0), "0 B");
    assert_eq!(iec_bytes(1023), "1023 B");
    assert_eq!(iec_bytes(1024), "1.0 KiB");
    assert_eq!(iec_bytes(1536), "1.5 KiB");
    assert_eq!(iec_bytes(68_719_476_736), "64.0 GiB");
    assert_eq!(iec_bytes(58_982_400_000), "54.9 GiB");
    assert_eq!(iec_bytes(1024u64.pow(4) * 3), "3.0 TiB");
}

#[test]
fn rounding_is_half_to_even() {
    assert_eq!(round_half_even_exec(25, 10), 2);
    assert_eq!(round_half_even_exec(35, 10), 4);
    assert_eq!(round_half_even_exec(26, 10), 3);
    assert_eq!(round_half_even_exec(24, 10), 2);
}

#[test]
fn stale_renders_age_not_value() {
    let last = Timestamp::from_unix_nanos(10_000_000_000);
    let now = Timestamp::from_unix_nanos(14_200_000_000);
    assert_eq!(elapsed(last, now), 4_200_000_000);
    assert_eq!(elapsed(now, last), 0);
    assert_eq!(unavailable_phrase(&ObservationState::STALE, Some(last), now), "stale 4.2s");
    assert_eq!(unavailable_phrase(&ObservationState::ASLEEP, None, now), "asleep");
    assert_eq!(unavailable_phrase(&ObservationState::new("mystery"), None, now), "mystery");
}

#[test]
fn memory_cells_show_bytes_or_the_reason() {
    assert_eq!(memory_cell(&Reading::Value(2048)), "2.0 KiB");
    assert_eq!(memory_cell(&Reading::Absent), "—");
    assert_eq!(memory_cell(&Reading::PermissionDenied), "permission denied");
    assert_eq!(reading_phrase(&Reading::<u64>::Malformed), "malformed");
    assert_eq!(reading_phrase(&Reading::Value(1u64)), "");
}

#[test]
fn pool_labels_are_display_names() {
    assert_eq!(pool_label("vram"), "VRAM");
    assert_eq!(pool_label("gtt"), "GTT");
    assert_eq!(pool_label("shared"), "shared");
    assert_eq!(pool_label("hbm"), "hbm");
}

#[test]
fn clipping_marks_the_cut_with_an_ellipsis() {
    assert_eq!(clip("short", 16), "short");
    assert_eq!(clip("abcdefghij", 5), "abcd…");
    assert_eq!(clip("abc", 0), "…");
}

#[test]
fn short_names_strip_vendor_words_and_clip() {
    assert_eq!(short_name("AMD Instinct MI300X"), "MI300X");
    assert_eq!(short_name("AMD Radeon RX 7900 XTX"), "RX 7900 XTX");
    assert_eq!(short_name("  AMD  "), "AMD");
    assert_eq!(short_name("AMD Radeon Graphics Processor 8060S"), "Graphics Proces…");
}

#[test]
fn automatic_surface_is_the_richest_that_fits() {
    assert_eq!(automatic(120, 40), Surface::Mode);
    assert_eq!(automatic(1, 1), Surface::Tiny);
    let area = Rect::new(0, 0, 100, 30);
    let inner = centered(area, 40, 10);
    assert_eq!((inner.x, inner.y, inner.width, inner.height), (30, 10, 40, 10));
}

#[test]
fn cat_sprite_breathes_within_its_footprint() {
    let (width, height) = footprint();
    assert_eq!(height, 3);
    for breath in 0..4 {
        let lines = sprite(breath);
        for line in lines.iter() {
            assert!(line.chars().count() <= usize::from(width));
        }
    }
}
