use ffi_trace::mempr::{
    after_mprotect, after_raise, mempr_off, mempr_on, MemprNext, Mprotect, Prot,
};
use ffi_trace::native_lib::maps::is_in_libc;
use ffi_trace::native_lib::paths::is_same_path;
use ffi_trace::pages::{add_pages, check_run, del_pages, has_page, owns, page_of};
use ffi_trace::trace::libc_events::{record_free, record_malloc};
use ffi_trace::trace::mmap_events::{any_mapped, record_mmap, record_munmap};
use ffi_trace::trace::{LibcEvent, MmapEvent};
use ffi_trace::tracee::Mapping;
use ffi_trace::words::{some_read, to_bytes, with_first_byte};

#[test]
fn pages_own_addresses() {
    let pages = vec![0x1000, 0x5000];
    assert!(owns(&pages, 0x1000, 0x1000));
    assert!(owns(&pages, 0x1000, 0x1fff));
    assert!(!owns(&pages, 0x1000, 0x2000));
    assert!(!owns(&pages, 0x1000, 0xfff));
    assert!(owns(&pages, 0x1000, 0x5abc));
    assert!(!owns(&vec![], 0x1000, 0));
    assert!(has_page(&pages, 0x5000));
    assert!(!has_page(&pages, 0x5001));
    assert_eq!(page_of(0x1fff, 0x1000), 0x1000);
    assert_eq!(page_of(0x1000, 0x1000), 0x1000);
}

#[test]
fn runs_of_pages() {
    assert!(check_run(usize::MAX, 0, 0x1000));
    assert!(check_run(usize::MAX, 1, 0x1000));
    assert!(!check_run(usize::MAX, 2, 0x1000));
    assert!(check_run(usize::MAX - 0x1000, 2, 0x1000));
    assert!(!check_run(0, usize::MAX, 0x1000));
}

#[test]
fn pages_come_and_go() {
    let mut pages = vec![0x9000];
    add_pages(&mut pages, 0x1000, 3, 0x1000);
    assert_eq!(pages, vec![0x9000, 0x1000, 0x2000, 0x3000]);
    assert!(del_pages(&mut pages, 0x1000, 3, 0x1000));
    assert_eq!(pages, vec![0x9000]);
    assert!(!del_pages(&mut pages, 0x9000, 2, 0x1000));
    let mut twice = vec![0x1000, 0x2000, 0x1000];
    assert!(del_pages(&mut twice, 0x1000, 1, 0x1000));
    assert_eq!(twice, vec![0x2000, 0x1000]);
}

#[test]
fn protection_routines() {
    assert_eq!(
        mempr_off(0x4000, 0x1000, 2),
        Mprotect { addr: 0x4000, len: 0x2000, prot: Prot::ReadWrite }
    );
    assert_eq!(
        mempr_on(0x4000, 0x1000, 1),
        Mprotect { addr: 0x4000, len: 0x1000, prot: Prot::NoAccess }
    );
    assert_eq!(mempr_off(0, 2, usize::MAX).len, usize::MAX - 1);
    assert_eq!(after_mprotect(0), MemprNext::RaiseStop);
    assert_eq!(after_mprotect(-1), MemprNext::Exit(-1));
    assert_eq!(after_raise(true), MemprNext::Rest);
    assert_eq!(after_raise(false), MemprNext::Exit(-1));
}

fn libc_log(events: &Vec<LibcEvent>) -> Vec<String> {
    events.iter().map(|e| format!("{e:?}")).collect()
}

#[test]
fn transient_allocations_vanish() {
    let mut events = vec![];
    record_malloc(&mut events, 0x100, 0x20);
    record_malloc(&mut events, 0x200, 0x10);
    // By a pointer offset from its start.
    record_free(&mut events, 0x110);
    assert_eq!(libc_log(&events), vec!["Malloc(512..528)"]);
    record_free(&mut events, 0x200);
    assert!(events.is_empty());
}

#[test]
fn other_releases_are_recorded() {
    let mut events = vec![];
    record_malloc(&mut events, 0x100, 0x20);
    record_free(&mut events, 0x120);
    assert_eq!(libc_log(&events), vec!["Malloc(256..288)", "Free(288)"]);
    // An empty allocation holds no pointer.
    record_malloc(&mut events, 0x300, 0);
    record_free(&mut events, 0x300);
    assert_eq!(
        libc_log(&events),
        vec!["Malloc(256..288)", "Free(288)", "Malloc(768..768)", "Free(768)"]
    );
}

#[test]
fn the_first_allocation_goes() {
    let mut events = vec![];
    record_malloc(&mut events, 0x100, 0x20);
    record_malloc(&mut events, 0x110, 0x20);
    record_free(&mut events, 0x118);
    assert_eq!(libc_log(&events), vec!["Malloc(272..304)"]);
}

#[test]
fn transient_mappings_vanish() {
    let mut events = vec![];
    record_mmap(&mut events, 0x1000, 2, 0x1000);
    assert_eq!(events, vec![MmapEvent::Mmap(0x1000), MmapEvent::Mmap(0x2000)]);
    record_munmap(&mut events, 0x1000, 2, 0x1000);
    assert!(events.is_empty());
}

#[test]
fn other_unmappings_are_recorded() {
    let mut events = vec![];
    record_munmap(&mut events, 0x7000, 1, 0x1000);
    assert_eq!(events, vec![MmapEvent::Munmap(0x7000)]);
    assert!(!any_mapped(&events));
    record_mmap(&mut events, 0x7000, 1, 0x1000);
    assert!(any_mapped(&events));
    // The unmapping stays although the page came back.
    assert_eq!(events, vec![MmapEvent::Munmap(0x7000), MmapEvent::Mmap(0x7000)]);
    // One page is known, and the other is not.
    record_munmap(&mut events, 0x7000, 2, 0x1000);
    assert_eq!(events, vec![MmapEvent::Munmap(0x7000), MmapEvent::Munmap(0x8000)]);
}

#[test]
fn every_known_page_is_removed_once() {
    let mut events = vec![];
    record_mmap(&mut events, 0x1000, 3, 0x1000);
    record_munmap(&mut events, 0x2000, 1, 0x1000);
    assert_eq!(events, vec![MmapEvent::Mmap(0x1000), MmapEvent::Mmap(0x3000)]);
}

fn mapping(start: usize, size: usize, file: Option<&str>) -> Mapping {
    Mapping { start, size, file: file.map(|name| name.as_bytes().to_vec()) }
}

#[test]
fn addresses_in_libc() {
    let maps = vec![
        mapping(0x1000, 0x1000, Some("/bin/app")),
        mapping(0x5000, 0x1000, Some("/lib/libc.so")),
        mapping(0x6000, 0x2000, Some("/lib/libc.so")),
        mapping(0x9000, 0x1000, None),
    ];
    assert_eq!(is_in_libc(&maps, 0x5123, 0x5123), Some(true));
    assert_eq!(is_in_libc(&maps, 0x5123, 0x7fff), Some(true));
    assert_eq!(is_in_libc(&maps, 0x5123, 0x8000), Some(false));
    assert_eq!(is_in_libc(&maps, 0x5123, 0x1000), Some(false));
    // No file, and no mapping at all.
    assert_eq!(is_in_libc(&maps, 0x9000, 0x9000), None);
    assert_eq!(is_in_libc(&maps, 0x4000, 0x5123), None);
}

#[test]
fn libc_under_another_spelling() {
    let maps = vec![
        mapping(0x5000, 0x1000, Some("/lib/libc.so")),
        mapping(0x6000, 0x1000, Some("/lib//./libc.so")),
        mapping(0x7000, 0x1000, Some("lib/libc.so")),
    ];
    assert_eq!(is_in_libc(&maps, 0x5123, 0x6000), Some(true));
    assert_eq!(is_in_libc(&maps, 0x5123, 0x7000), Some(false));
}

#[test]
fn paths_go_by_components() {
    let names = [
        "", "/", ".", "./", "/.", "..", "a", "./a", "a/", "a//b", "a/b", "a/./b", "a/b/.", "/a/b",
        "//a/b/", "a/../b", "./.", "a/b/..", ".a", "a.",
    ];
    for a in names {
        for b in names {
            assert_eq!(
                is_same_path(&a.as_bytes().to_vec(), &b.as_bytes().to_vec()),
                std::path::Path::new(a) == std::path::Path::new(b),
                "{a:?} {b:?}"
            );
        }
    }
}

#[test]
fn words_and_bytes() {
    let word = 0x8877_6655_4433_2211;
    assert_eq!(
        to_bytes(&vec![Some(word), None, Some(1)]),
        vec![
            0x11, 0x22, 0x33, 0x44, 0x55, 0x66, 0x77, 0x88, 0, 0, 0, 0, 0, 0, 0, 0, 1, 0, 0, 0, 0, 0,
            0, 0
        ]
    );
    assert_eq!(to_bytes(&vec![Some(word)]), word.to_ne_bytes().to_vec());
    assert_eq!(with_first_byte(word, 0xff), 0x8877_6655_4433_22ff);
    assert_eq!(with_first_byte(usize::MAX, 0), usize::MAX - 0xff);
    assert!(some_read(&vec![None, Some(0)]));
    assert!(!some_read(&vec![None, None]));
    assert!(!some_read(&vec![]));
}
