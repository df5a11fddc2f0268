use repomons::status::status_out;

#[test]
fn status_names_in_order() {
    let mut out = String::new();
    status_out(0x1 | 0x100 | 0x8000, &mut out);
    assert_eq!(out, "idx-new, wt-modified, conflicted");
}

#[test]
fn status_names_append() {
    let mut out = String::from("a.txt: ");
    status_out(0x8 | 0x10, &mut out);
    assert_eq!(out, "a.txt: idx-typechange, idx-renamed");
    let mut none = String::new();
    status_out(0, &mut none);
    assert_eq!(none, "");
    let mut unreadable = String::new();
    status_out(0x1000, &mut unreadable);
    assert_eq!(unreadable, "");
    let mut ignored = String::new();
    status_out(0x4000, &mut ignored);
    assert_eq!(ignored, "ignored");
}
