use workflows::{Argument, Shell, Workflow};

#[test]
fn test_render_workflow() {
    let workflow = Workflow {
        command: "curl --header {{header}} \"{{url}}\"".to_string(),
        ..Workflow::default()
    };
    let values: Vec<(String, String)> = vec![
        ("header".to_string(), "Authorization: Bearer 123".to_string()),
        ("url".to_string(), "https://www.google.de".to_string()),
    ];
    assert_eq!(
        workflow.render(&values),
        "curl --header Authorization: Bearer 123 \"https://www.google.de\""
    );
}

#[test]
fn test_load_workflow_from_yaml() {
    let text = "name: Attach a header to an HTTP request with cURL\n\
                command: |\n  curl --header \"{{header}}\" {{url}}\n  demo\n\
                tags:\n  - curl\n";
    let workflow = workflows::workflow_from_yaml(text).expect("fixture should parse");
    assert_eq!(workflow.name, "Attach a header to an HTTP request with cURL");
    assert_eq!(workflow.command, "curl --header \"{{header}}\" {{url}}\ndemo\n");
    assert_eq!(workflow.tags, vec!["curl".to_string()]);
}

#[test]
fn test_render_leaves_unsupplied_placeholders_verbatim() {
    let workflow = Workflow::new("w", "echo {{greeting}} {{name}}");
    let values: Vec<(String, String)> = vec![("greeting".to_string(), "hello".to_string())];
    assert_eq!(workflow.render(&values), "echo hello {{name}}");
}

#[test]
fn test_render_replaces_every_occurrence() {
    let workflow = Workflow::new("w", "{{x}} and {{x}} and {{x}}");
    let values: Vec<(String, String)> = vec![("x".to_string(), "y".to_string())];
    assert_eq!(workflow.render(&values), "y and y and y");
}

#[test]
fn test_render_with_no_values_is_identity() {
    let workflow = Workflow::new("w", "echo {{x}}");
    let values: Vec<(String, String)> = Vec::new();
    assert_eq!(workflow.render(&values), "echo {{x}}");
}

#[test]
fn test_workflow_builders_and_getters() {
    let args = vec![
        Argument::new("header").with_description("the header to attach"),
        Argument::new("url"),
    ];
    let workflow = Workflow::new("send request", "curl {{url}}")
        .with_arguments(args)
        .with_description("Sends a request".to_string());
    assert_eq!(workflow.name(), "send request");
    assert_eq!(workflow.command(), "curl {{url}}");
    assert_eq!(workflow.description(), &Some("Sends a request".to_string()));
    assert_eq!(workflow.arguments().len(), 2);
    assert_eq!(workflow.arguments()[0].name(), "header");
    assert_eq!(
        workflow.arguments()[0].description(),
        &Some("the header to attach".to_string())
    );
    assert_eq!(workflow.arguments()[1].default_value(), &None);
    assert!(workflow.tags().is_empty());
    assert!(workflow.shells().is_empty());
    assert_eq!(workflow.source_url(), &None);
    assert_eq!(workflow.author_name(), &None);
}

#[test]
fn test_load_workflow_with_all_fields() {
    let text = "name: full\ncommand: echo {{x}}\ntags: [a, b]\ndescription: does a thing\narguments:\n  - name: x\n    description: the x\n    default_value: one\nsource_url: https://example.com\nauthor: someone\nauthor_url: https://example.com/someone\nshells: [fish, bash, zsh]\n";
    let w = workflows::workflow_from_yaml(text).expect("document should parse");
    assert_eq!(w.name, "full");
    assert_eq!(w.command, "echo {{x}}");
    assert_eq!(w.tags, vec!["a".to_string(), "b".to_string()]);
    assert_eq!(w.description, Some("does a thing".to_string()));
    assert_eq!(w.arguments.len(), 1);
    assert_eq!(w.arguments[0].name, "x");
    assert_eq!(w.arguments[0].description, Some("the x".to_string()));
    assert_eq!(w.arguments[0].default_value, Some("one".to_string()));
    assert_eq!(w.source_url, Some("https://example.com".to_string()));
    assert_eq!(w.author, Some("someone".to_string()));
    assert_eq!(w.author_url, Some("https://example.com/someone".to_string()));
    assert_eq!(w.shells, vec![Shell::Fish, Shell::Bash, Shell::Zsh]);
}

#[test]
fn test_load_workflow_null_description_is_none() {
    let text = "name: n\ncommand: c\ndescription: ~\n";
    let w = workflows::workflow_from_yaml(text).expect("document should parse");
    assert_eq!(w.description, None);
}

#[test]
fn test_load_workflow_missing_command_fails() {
    let text = "name: only a name\n";
    assert!(workflows::workflow_from_yaml(text).is_none());
}

#[test]
fn test_load_workflow_unknown_shell_fails() {
    let text = "name: n\ncommand: c\nshells: [powershell]\n";
    assert!(workflows::workflow_from_yaml(text).is_none());
}

#[test]
fn test_load_workflow_malformed_text_fails() {
    let text = "name: [unclosed\n";
    assert!(workflows::workflow_from_yaml(text).is_none());
}

#[test]
fn test_load_workflow_non_string_name_fails() {
    let text = "name: [a, b]\ncommand: c\n";
    assert!(workflows::workflow_from_yaml(text).is_none());
}
