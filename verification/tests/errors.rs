use dotz::errors::{
    could_not_clone, could_not_create, could_not_read, could_not_remove, failed_to_create, Errors,
};

fn all(message: &str) -> Vec<Errors> {
    vec![
        Errors::InvalidArgument { message: message.to_string() },
        Errors::InvalidPath { message: message.to_string() },
        Errors::RepositoryNotCloned { message: message.to_string() },
        Errors::ErrorCreatingDirectory { message: message.to_string() },
        Errors::ErrorCreatingFile { message: message.to_string() },
        Errors::ErrorRemovingDirectory { message: message.to_string() },
        Errors::ErrorReadingDirectory { message: message.to_string() },
    ]
}

#[test]
fn message_is_the_bare_text() {
    for error in all("No path provided") {
        assert_eq!(error.message(), "No path provided");
    }
}

#[test]
fn describe_puts_error_in_front() {
    for error in all("No path provided") {
        assert_eq!(error.describe(), "Error: No path provided");
    }
    assert_eq!(Errors::InvalidPath { message: String::new() }.describe(), "Error: ");
}

#[test]
fn built_errors_name_the_path() {
    assert_eq!(
        could_not_create("/d/x"),
        Errors::ErrorCreatingDirectory { message: "Could not create /d/x".to_string() }
    );
    assert_eq!(
        could_not_remove("/d/x"),
        Errors::ErrorRemovingDirectory { message: "Could not remove /d/x".to_string() }
    );
    assert_eq!(
        could_not_read("/s/x"),
        Errors::ErrorReadingDirectory { message: "Could not read /s/x".to_string() }
    );
    assert_eq!(
        failed_to_create("/d/a.txt"),
        Errors::ErrorCreatingFile { message: "Failed to create /d/a.txt".to_string() }
    );
    assert_eq!(
        could_not_clone(),
        Errors::RepositoryNotCloned { message: "Could not clone repository".to_string() }
    );
}
