use sweeper::{category_for, file_category, organize_target, OrganizeStep};

#[test]
fn categories_by_extension() {
    let c = |e: &str| category_for(&e.to_string());
    assert_eq!(c("pdf"), "Documents");
    assert_eq!(c("txt"), "Documents");
    assert_eq!(c("webp"), "Images");
    assert_eq!(c("7z"), "Archives");
    assert_eq!(c("rpm"), "Installers");
    assert_eq!(c("xlsx"), "Spreadsheets");
    assert_eq!(c("rs"), "Other");
    assert_eq!(c(""), "Other");
    assert_eq!(c("PDF"), "Other");
}

#[test]
fn file_category_lowercases_extension() {
    let f = |p: &str| file_category(&p.to_string());
    assert_eq!(f("/d/REPORT.PDF"), "Documents");
    assert_eq!(f("/d/photo.Jpg"), "Images");
    assert_eq!(f("/d/archive.tar.gz"), "Archives");
    assert_eq!(f("/d/Makefile"), "Other");
}

#[test]
fn organize_target_appends_to_name() {
    let d = "/d".to_string();
    let cat = "Documents".to_string();
    let n = "a.pdf".to_string();
    assert_eq!(
        organize_target(&d, &cat, &n, &vec![false]),
        OrganizeStep::Target("/d/Documents/a.pdf".to_string())
    );
    assert_eq!(
        organize_target(&d, &cat, &n, &vec![true, true, false]),
        OrganizeStep::Target("/d/Documents/a.pdf_2".to_string())
    );
    assert_eq!(
        organize_target(&d, &cat, &n, &vec![true]),
        OrganizeStep::Probe("/d/Documents/a.pdf_1".to_string())
    );
    assert_eq!(
        organize_target(&d, &cat, &n, &vec![]),
        OrganizeStep::Probe("/d/Documents/a.pdf".to_string())
    );
}
