use django_scaffold::patch::{patch_line, patch_template};

fn chars(s: &str) -> Vec<char> {
    s.chars().collect()
}

fn line_strings(parts: &[Vec<char>]) -> Vec<String> {
    parts.iter().map(|p| p.iter().collect()).collect()
}

#[test]
fn marker_line_expands_to_app_entry_then_marker() {
    let out = patch_line(&chars("\t##django apps##"), &chars("blog"));
    let out = line_strings(&out);
    assert_eq!(out, vec!["\t'users',".to_string(), "\t##django apps##".to_string()]);
}

#[test]
fn marker_line_with_prefix_keeps_prefix_on_app_entry() {
    let out = patch_line(&chars("    ##django apps##"), &chars("blog"));
    let out = line_strings(&out);
    assert_eq!(out, vec!["    'users',".to_string(), "\t##django apps##".to_string()]);
}

#[test]
fn placeholder_replaced_by_project_name() {
    let out = patch_line(&chars("ROOT_URLCONF = 'project_name.urls'"), &chars("blog"));
    let out = line_strings(&out);
    assert_eq!(out, vec!["ROOT_URLCONF = 'blog.urls'".to_string()]);
}

#[test]
fn every_placeholder_occurrence_replaced() {
    let out = patch_line(&chars("project_name and project_name again"), &chars("blog"));
    let out = line_strings(&out);
    assert_eq!(out, vec!["blog and blog again".to_string()]);
}

#[test]
fn plain_line_unchanged() {
    let out = patch_line(&chars("DEBUG = True"), &chars("blog"));
    let out = line_strings(&out);
    assert_eq!(out, vec!["DEBUG = True".to_string()]);
}

#[test]
fn empty_line_passes_through() {
    let out = patch_line(&chars(""), &chars("blog"));
    let out = line_strings(&out);
    assert_eq!(out, vec!["".to_string()]);
}

#[test]
fn marker_wins_over_placeholder_on_one_line() {
    let out = patch_line(&chars("project_name ##django apps##"), &chars("blog"));
    let out = line_strings(&out);
    // The marker branch runs first, so the placeholder on a marker line stays.
    assert_eq!(
        out,
        vec!["project_name 'users',".to_string(), "\t##django apps##".to_string()]
    );
}

#[test]
fn bare_marker_line_expands_from_column_zero() {
    let out = patch_line(&chars("##django apps##"), &chars("blog"));
    let out = line_strings(&out);
    assert_eq!(out, vec!["'users',".to_string(), "\t##django apps##".to_string()]);
}

#[test]
fn empty_name_erases_placeholder() {
    let out = patch_line(&chars("project_name"), &chars(""));
    let out = line_strings(&out);
    assert_eq!(out, vec!["".to_string()]);
}

#[test]
fn template_line_count_grows_by_one_per_marker_line() {
    let template = vec![
        chars("INSTALLED_APPS = ["),
        chars("\t'django.contrib.admin',"),
        chars("\t##django apps##"),
        chars("]"),
        chars("WSGI_APPLICATION = 'project_name.wsgi.application'"),
    ];
    let out = patch_template(&template, &chars("blog"));
    assert_eq!(out.len(), template.len() + 1);
}

#[test]
fn empty_template_stays_empty() {
    let out = patch_template(&Vec::new(), &chars("blog"));
    assert_eq!(out.len(), 0);
}

#[test]
fn template_patch_end_to_end_for_blog() {
    let template = vec![
        chars("ROOT_URLCONF = 'project_name.urls'"),
        chars("INSTALLED_APPS = ["),
        chars("\t##django apps##"),
        chars("]"),
        chars("WSGI_APPLICATION = 'project_name.wsgi.application'"),
    ];
    let out = patch_template(&template, &chars("blog"));
    let out = line_strings(&out);
    assert_eq!(
        out,
        vec![
            "ROOT_URLCONF = 'blog.urls'".to_string(),
            "INSTALLED_APPS = [".to_string(),
            "\t'users',".to_string(),
            "\t##django apps##".to_string(),
            "]".to_string(),
            "WSGI_APPLICATION = 'blog.wsgi.application'".to_string(),
        ]
    );
    // No placeholder survives anywhere in the output.
    for line in &out {
        assert!(!line.contains("project_name"));
    }
}

#[test]
fn repeated_patch_layers_further_apps() {
    // The marker is re-emitted, so a second pass inserts before it again.
    let once = patch_template(&vec![chars("\t##django apps##")], &chars("blog"));
    let twice = patch_template(&once, &chars("blog"));
    let twice = line_strings(&twice);
    assert_eq!(
        twice,
        vec![
            "\t'users',".to_string(),
            "\t'users',".to_string(),
            "\t##django apps##".to_string(),
        ]
    );
}
