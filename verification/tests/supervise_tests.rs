use marimow::find_file_arg;
use marimow::normalize_marimo_args;

fn args(parts: &[&str]) -> Vec<String> {
    parts.iter().map(|p| p.to_string()).collect()
}

#[test]
fn normalization_prepends_the_fixed_pair() {
    assert_eq!(
        normalize_marimo_args(&args(&["file.py"])),
        args(&["edit", "--watch", "file.py"]),
    );
}

#[test]
fn caller_watch_flags_are_deduplicated() {
    assert_eq!(
        normalize_marimo_args(&args(&["--watch", "file.py", "--watch"])),
        args(&["edit", "--watch", "file.py"]),
    );
}

#[test]
fn other_arguments_keep_their_order() {
    assert_eq!(
        normalize_marimo_args(&args(&["--headless", "file.py", "--port", "8080"])),
        args(&["edit", "--watch", "--headless", "file.py", "--port", "8080"]),
    );
}

#[test]
fn no_arguments_gives_just_the_fixed_pair() {
    assert_eq!(normalize_marimo_args(&args(&[])), args(&["edit", "--watch"]));
}

#[test]
fn first_non_flag_argument_is_the_file() {
    assert_eq!(find_file_arg(&args(&["-v", "--headless", "file.py", "other.py"])), Some(2));
}

#[test]
fn all_flags_means_no_file_argument() {
    assert_eq!(find_file_arg(&args(&["-v", "--headless"])), None);
    assert_eq!(find_file_arg(&args(&[])), None);
}

#[test]
fn empty_argument_is_not_a_flag() {
    assert_eq!(find_file_arg(&args(&["-v", ""])), Some(1));
}
