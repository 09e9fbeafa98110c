use astro_obsidian::args::{CliArgs, ValidationErrors};

fn args(path: &str) -> CliArgs {
    CliArgs { path: path.to_string(), output: "out.json".to_string() }
}

#[test]
fn existing_path_is_valid() {
    assert!(args("notes").is_valid(true).is_ok());
}

#[test]
fn missing_path_is_refused() {
    match args("no/such/dir").is_valid(false) {
        Err(ValidationErrors::BadPath(p)) => assert_eq!(p, "no/such/dir"),
        Ok(()) => panic!("a missing folder must be refused"),
    }
}

#[test]
fn bad_path_message() {
    let e = ValidationErrors::BadPath("x/y".to_string());
    assert_eq!(e.message(), "Path: x/y doesn't exist\n");
}
