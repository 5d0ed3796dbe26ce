//! Tests for the compilation context, the font catalog and the compile
//! outcome.
use typst_sandbox::dates::Date;
use typst_sandbox::ids::FileId;
use typst_sandbox::outcome::finish_pages;
use typst_sandbox::outcome::RenderFailure;
use typst_sandbox::sandbox::Sandbox;

#[test]
fn main_source_is_served_directly() {
    let mut sandbox = Sandbox::new();
    let ctx = sandbox.with_source("hello world!".to_string(), 0);
    assert_eq!(ctx.main_source(), "hello world!");
    let main_id = FileId { package: None, path: Vec::new() };
    assert_eq!(
        ctx.source(&mut sandbox, &main_id).unwrap(),
        "hello world!".to_string()
    );
}

#[test]
fn one_rendered_page_is_a_success() {
    let pages = vec!["<svg>page one</svg>".to_string()];
    let result = finish_pages(pages);
    assert_eq!(result.unwrap().len(), 1);
}

#[test]
fn no_pages_is_a_failure() {
    let result = finish_pages(Vec::new());
    assert!(matches!(result, Err(RenderFailure::NoPagesProduced)));
}

#[test]
fn set_fonts_rejects_invalid_font_atomically() {
    let mut sandbox = Sandbox::new();
    let garbage = vec![vec![0u8, 1, 2, 3, 4, 5, 6, 7]];
    assert!(sandbox.set_fonts(garbage).is_err());
    // The catalog is exactly as it was: still empty.
    let ctx = sandbox.with_source(String::new(), 0);
    assert!(ctx.font(&sandbox, 0).is_none());
    assert_eq!(ctx.book(&sandbox).buffers.len(), 0);
    assert_eq!(ctx.book(&sandbox).book_faces, 0);
}

#[test]
fn set_fonts_accepts_no_fonts() {
    let mut sandbox = Sandbox::new();
    assert!(sandbox.set_fonts(Vec::new()).is_ok());
    let ctx = sandbox.with_source(String::new(), 0);
    assert!(ctx.font(&sandbox, 0).is_none());
}

#[test]
fn empty_font_collection_contributes_no_faces() {
    let mut sandbox = Sandbox::new();
    // A font-collection header declaring zero embedded fonts: accepted, and
    // no face handle comes out of it.
    let mut ttc = b"ttcf".to_vec();
    ttc.extend_from_slice(&[0, 1, 0, 0]);
    ttc.extend_from_slice(&[0, 0, 0, 0]);
    assert!(sandbox.set_fonts(vec![ttc]).is_ok());
    let ctx = sandbox.with_source(String::new(), 0);
    assert_eq!(ctx.book(&sandbox).buffers.len(), 1);
    assert_eq!(ctx.book(&sandbox).book_faces, 0);
    assert!(ctx.font(&sandbox, 0).is_none());
}

#[test]
fn today_at_the_epoch() {
    let sandbox = Sandbox::new();
    let ctx = sandbox.with_source(String::new(), 0);
    assert_eq!(
        ctx.today(None),
        Some(Date { year: 1970, month: 1, day: 1 })
    );
    let late = sandbox.with_source(String::new(), 86399);
    assert_eq!(
        late.today(None),
        Some(Date { year: 1970, month: 1, day: 1 })
    );
    let next = sandbox.with_source(String::new(), 86400);
    assert_eq!(
        next.today(None),
        Some(Date { year: 1970, month: 1, day: 2 })
    );
}

#[test]
fn today_handles_leap_years() {
    let sandbox = Sandbox::new();
    let leap = sandbox.with_source(String::new(), 1709164800);
    assert_eq!(
        leap.today(None),
        Some(Date { year: 2024, month: 2, day: 29 })
    );
    let century = sandbox.with_source(String::new(), 951868800);
    assert_eq!(
        century.today(None),
        Some(Date { year: 2000, month: 3, day: 1 })
    );
    // 2100 is no leap year: the day after the 28th of February is the
    // first of March.
    let no_leap = sandbox.with_source(String::new(), 4107456000 + 86400);
    assert_eq!(
        no_leap.today(None),
        Some(Date { year: 2100, month: 3, day: 1 })
    );
}

#[test]
fn today_applies_the_hour_offset() {
    let sandbox = Sandbox::new();
    let ctx = sandbox.with_source(String::new(), 86400);
    // One hour west of the epoch-adjacent midnight: still the prior day.
    assert_eq!(
        ctx.today(Some(-1)),
        Some(Date { year: 1970, month: 1, day: 1 })
    );
    assert_eq!(
        ctx.today(Some(0)),
        Some(Date { year: 1970, month: 1, day: 2 })
    );
}

#[test]
fn today_rejects_out_of_range_offsets() {
    let sandbox = Sandbox::new();
    let ctx = sandbox.with_source(String::new(), 1700000000);
    assert!(ctx.today(Some(24)).is_none());
    assert!(ctx.today(Some(-24)).is_none());
    assert!(ctx.today(Some(9000)).is_none());
    assert!(ctx.today(Some(14)).is_some());
}

#[test]
fn today_rejects_times_outside_the_calendar() {
    let sandbox = Sandbox::new();
    let before = sandbox.with_source(String::new(), -1);
    assert!(before.today(None).is_none());
    let last = sandbox.with_source(String::new(), 253402300799);
    assert_eq!(
        last.today(None),
        Some(Date { year: 9999, month: 12, day: 31 })
    );
    let past_the_end = sandbox.with_source(String::new(), 253402300800);
    assert!(past_the_end.today(None).is_none());
}
