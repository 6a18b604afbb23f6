use heif_convert::cli::Format;
use heif_convert::naming::{
    file_name_of, file_stem, normalize_components, output_directory, output_file_name, parent_components,
    replace_text, PathPart,
};

#[test]
fn default_templates_use_stem_and_directory() {
    assert_eq!(output_file_name("{name}", "IMG_0001", Format::Jpg), "IMG_0001.jpg");
    assert_eq!(output_directory("{path}", "/home/me/photos"), "/home/me/photos");
}

#[test]
fn templates_are_filled_everywhere() {
    assert_eq!(output_file_name("{name}-{name}_small", "a", Format::Webp), "a-a_small.webp");
    assert_eq!(output_file_name("fixed", "a", Format::Png), "fixed.png");
    assert_eq!(output_directory("{path}/converted", "/x"), "/x/converted");
    assert_eq!(output_directory("/tmp", "/x"), "/tmp");
}

#[test]
fn replacement_is_left_to_right_without_overlap() {
    assert_eq!(replace_text("aaa", "aa", "b"), "ba");
    assert_eq!(replace_text("{na{name}}", "{name}", "X"), "{naX}");
    assert_eq!(replace_text("", "{name}", "X"), "");
    assert_eq!(replace_text("żółw {name}", "{name}", "ü"), "żółw ü");
}

fn normal(s: &str) -> PathPart {
    PathPart::Normal(s.to_string())
}

fn render(parts: &[PathPart]) -> Vec<String> {
    parts
        .iter()
        .map(|p| match p {
            PathPart::Prefix(s) => format!("prefix:{s}"),
            PathPart::Root => "/".to_string(),
            PathPart::CurDir => ".".to_string(),
            PathPart::ParentDir => "..".to_string(),
            PathPart::Normal(s) => s.clone(),
        })
        .collect()
}

#[test]
fn normalization_drops_dots_and_cancels_parents() {
    let parts = vec![PathPart::Root, normal("home"), PathPart::CurDir, normal("me"), PathPart::ParentDir, normal("pics"), normal("a.heic")];
    assert_eq!(render(&normalize_components(&parts)), vec!["/", "home", "pics", "a.heic"]);
    let above_root = vec![PathPart::Root, PathPart::ParentDir, normal("x")];
    assert_eq!(render(&normalize_components(&above_root)), vec!["/", "x"]);
    let only_up = vec![PathPart::Root, PathPart::ParentDir];
    assert_eq!(render(&normalize_components(&only_up)), vec!["/"]);
    let twice_up = vec![PathPart::Root, normal("a"), PathPart::ParentDir, PathPart::ParentDir, normal("b")];
    assert_eq!(render(&normalize_components(&twice_up)), vec!["/", "b"]);
    let relative = vec![normal("a"), PathPart::ParentDir, PathPart::ParentDir];
    assert_eq!(render(&normalize_components(&relative)), vec![".."]);
    // A `..` never cancels another `..` in a relative path.
    let further = vec![normal("a"), PathPart::ParentDir, PathPart::ParentDir, PathPart::ParentDir];
    assert_eq!(render(&normalize_components(&further)), vec!["..", ".."]);
}

#[test]
fn normalization_is_idempotent_on_an_example() {
    let parts = vec![PathPart::Root, normal("a"), PathPart::ParentDir, PathPart::ParentDir, PathPart::CurDir, normal("b")];
    let once = normalize_components(&parts);
    let twice = normalize_components(&once);
    assert_eq!(render(&once), render(&twice));
    assert_eq!(render(&once), vec!["/", "b"]);
}

#[test]
fn names_stems_and_parents_of_paths() {
    let parts = vec![PathPart::Root, normal("photos"), normal("a.b.heic")];
    assert_eq!(file_name_of(&parts), Some("a.b.heic".to_string()));
    assert_eq!(file_stem("a.b.heic"), "a.b");
    assert_eq!(file_stem("image.heic"), "image");
    assert_eq!(file_stem(".hidden"), ".hidden");
    assert_eq!(file_stem("noext"), "noext");
    assert_eq!(file_stem(".."), "..");
    assert_eq!(file_stem("trailing."), "trailing");
    assert_eq!(file_name_of(&[PathPart::Root]), None);
    assert_eq!(file_name_of(&[normal("a"), PathPart::ParentDir]), None);
    assert_eq!(render(&parent_components(&parts).unwrap()), vec!["/", "photos"]);
    assert_eq!(render(&parent_components(&[PathPart::Root, normal("x")]).unwrap()), vec!["/"]);
    assert!(parent_components(&[PathPart::Root]).is_none());
    assert!(parent_components(&[]).is_none());
}
