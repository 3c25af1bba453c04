use vibewatch::event::EventKind;
use vibewatch::event::ModifySubkind;
use vibewatch::template::TemplateContext;

#[test]
fn test_template_substitution_all_variables() {
    let event = EventKind::Modify(ModifySubkind::Data);
    let ctx = TemplateContext::new(
        "/home/user/project/src/lib.rs",
        "src/lib.rs",
        &event,
        "/home/user/project",
    );

    let template = "Event: {event_type}, File: {file_path}, Relative: {relative_path}, Absolute: {absolute_path}";
    let result = ctx.substitute_template(template);

    assert_eq!(
        result,
        "Event: modify, File: /home/user/project/src/lib.rs, Relative: src/lib.rs, Absolute: /home/user/project/src/lib.rs"
    );
}

#[test]
fn test_template_substitution_partial() {
    let event = EventKind::Create;
    let ctx = TemplateContext::new("/tmp/file.txt", "file.txt", &event, "/tmp");

    let template = "File created: {relative_path}";
    let result = ctx.substitute_template(template);

    assert_eq!(result, "File created: file.txt");
}

#[test]
fn test_template_substitution_no_variables() {
    let event = EventKind::Create;
    let ctx = TemplateContext::new("/tmp/file.txt", "file.txt", &event, "/tmp");

    let template = "echo 'Hello World'";
    let result = ctx.substitute_template(template);

    assert_eq!(result, "echo 'Hello World'");
}

#[test]
fn test_template_substitution_multiple_same_variable() {
    let event = EventKind::Create;
    let ctx = TemplateContext::new("/tmp/file.txt", "file.txt", &event, "/tmp");

    let template = "{relative_path} -> {relative_path}";
    let result = ctx.substitute_template(template);

    assert_eq!(result, "file.txt -> file.txt");
}

#[test]
fn test_template_substitution_edge_cases() {
    let event = EventKind::Create;
    let ctx = TemplateContext::new("/tmp/test.txt", "test.txt", &event, "/tmp");

    assert_eq!(ctx.substitute_template(""), "");
    assert_eq!(ctx.substitute_template("static text"), "static text");
    assert_eq!(ctx.substitute_template("{file"), "{file");
    assert_eq!(ctx.substitute_template("file_path}"), "file_path}");
    assert_eq!(ctx.substitute_template("{unknown}"), "{unknown}");
}

#[test]
fn test_template_context_nested_paths() {
    let event = EventKind::Modify(ModifySubkind::Data);
    let ctx = TemplateContext::new(
        "/home/user/project/src/deep/nested/file.rs",
        "src/deep/nested/file.rs",
        &event,
        "/home/user/project",
    );

    assert_eq!(ctx.file_path, "/home/user/project/src/deep/nested/file.rs");
    assert_eq!(ctx.relative_path, "src/deep/nested/file.rs");
    assert_eq!(ctx.absolute_path, "/home/user/project/src/deep/nested/file.rs");
}

#[test]
fn test_template_context_event_types() {
    let cases: Vec<(EventKind, &str)> = vec![
        (EventKind::Create, "create"),
        (EventKind::Modify(ModifySubkind::Data), "modify"),
        (EventKind::Remove, "delete"),
        (EventKind::Other, "change"),
    ];
    for (event, expected) in cases {
        let ctx = TemplateContext::new("/tmp/test/file.txt", "file.txt", &event, "/tmp/test");
        assert_eq!(ctx.file_path, "/tmp/test/file.txt");
        assert_eq!(ctx.relative_path, "file.txt");
        assert_eq!(ctx.event_type, expected);
        assert_eq!(ctx.absolute_path, "/tmp/test/file.txt");
    }
}

#[test]
fn test_event_kind_to_string_all_types() {
    assert_eq!(TemplateContext::event_kind_to_str(&EventKind::Create), "create");
    assert_eq!(
        TemplateContext::event_kind_to_str(&EventKind::Modify(ModifySubkind::Data)),
        "modify"
    );
    assert_eq!(TemplateContext::event_kind_to_str(&EventKind::Remove), "delete");
    assert_eq!(TemplateContext::event_kind_to_str(&EventKind::Other), "change");
}

#[test]
fn test_event_kind_to_string_modify_subkinds() {
    assert_eq!(
        TemplateContext::event_kind_to_str(&EventKind::Modify(ModifySubkind::Name)),
        "modify"
    );
    assert_eq!(
        TemplateContext::event_kind_to_str(&EventKind::Modify(ModifySubkind::Other)),
        "modify"
    );
}

#[test]
fn test_normalize_path_backslashes() {
    assert_eq!(
        TemplateContext::normalize_path("C:\\Users\\dev\\project\\main.rs"),
        "C:/Users/dev/project/main.rs"
    );
    assert_eq!(TemplateContext::normalize_path("/already/normal"), "/already/normal");
    assert_eq!(TemplateContext::normalize_path(""), "");
}

#[test]
fn test_template_scenario_event_and_file_path() {
    let event = EventKind::Modify(ModifySubkind::Data);
    let ctx = TemplateContext::new("/a/b.rs", "b.rs", &event, "/a");
    assert_eq!(ctx.substitute_template("{event_type}:{file_path}"), "modify:/a/b.rs");
}
