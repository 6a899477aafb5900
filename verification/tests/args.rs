use lcs_diff::args::{file_arguments, ArgsError, LCSError};
use lcs_diff::file::FileLCSError;
use lcs_diff::matrix::MatrixError;

fn arguments(items: &[&str]) -> Vec<String> {
    items.iter().map(|item| item.to_string()).collect()
}

#[test]
fn no_path_is_no_args() {
    assert_eq!(file_arguments(&arguments(&[])), Err(ArgsError::NoArgs));
    assert_eq!(file_arguments(&arguments(&["prog"])), Err(ArgsError::NoArgs));
}

#[test]
fn one_path_is_invalid_args() {
    assert_eq!(
        file_arguments(&arguments(&["prog", "new.txt"])),
        Err(ArgsError::InvalidArgs)
    );
}

#[test]
fn two_paths_are_new_then_old() {
    assert_eq!(
        file_arguments(&arguments(&["prog", "new.txt", "old.txt"])),
        Ok(("new.txt".to_string(), "old.txt".to_string()))
    );
    assert_eq!(
        file_arguments(&arguments(&["prog", "new.txt", "old.txt", "more"])),
        Ok(("new.txt".to_string(), "old.txt".to_string()))
    );
}

#[test]
fn error_descriptions() {
    assert_eq!(ArgsError::NoArgs.description(), "No se pasaron argumentos");
    assert_eq!(
        ArgsError::InvalidArgs.description(),
        "La cantidad de argumentos pasados es erronea"
    );
    assert_eq!(
        FileLCSError::Open("no_file.txt".to_owned()).description(),
        "Hubo un error al intentar abrir el archivo"
    );
}

#[test]
fn file_error_keeps_the_path() {
    assert_eq!(
        FileLCSError::Open("no_file.txt".to_owned()),
        FileLCSError::Open("no_file.txt".to_owned())
    );
    assert_ne!(
        FileLCSError::Open("no_file.txt".to_owned()),
        FileLCSError::Open("other.txt".to_owned())
    );
}

#[test]
fn run_errors_wrap_each_kind() {
    let errors = [
        LCSError::Matrix(MatrixError::OutOfIndex),
        LCSError::File(FileLCSError::Open("a".to_owned())),
        LCSError::Args(ArgsError::NoArgs),
    ];
    assert!(matches!(errors[0], LCSError::Matrix(MatrixError::OutOfIndex)));
    assert!(matches!(errors[1], LCSError::File(FileLCSError::Open(_))));
    assert!(matches!(errors[2], LCSError::Args(ArgsError::NoArgs)));
}
