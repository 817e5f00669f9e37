use unitgen::unit::{
    basename, decimal_string, default_description, escape_args, join_spaced, optional_line,
    quote_arg, render_unit, service_file_name, substitutions, Cli, UnitError,
};

fn strings(list: &[&str]) -> Vec<String> {
    list.iter().map(|s| s.to_string()).collect()
}

fn sample_cli() -> Cli {
    let mut cli = Cli::new("myapp".to_string(), "server".to_string());
    cli.args = strings(&["-v"]);
    cli
}

#[test]
fn argument_quoting() {
    assert_eq!(escape_args(&strings(&["--port", "8080", "hello world"])), "--port 8080 \"hello world\"");
}

#[test]
fn argument_quoting_keeps_inner_quotes() {
    assert_eq!(quote_arg("say \"hi\" now"), "\"say \"hi\" now\"");
    assert_eq!(quote_arg("a\"b"), "a\"b");
    assert_eq!(quote_arg(""), "");
    assert_eq!(escape_args(&Vec::new()), "");
}

#[test]
fn description_default() {
    let cli = sample_cli();
    let pairs = substitutions(&cli, "/srv", "/usr/local/bin/server").unwrap();
    assert_eq!(pairs[5], ("description".to_string(), "myapp server -v".to_string()));
    assert_eq!(default_description("myapp", "server", &strings(&["-v"])), "myapp server -v");
}

#[test]
fn description_default_without_args_ends_in_space() {
    assert_eq!(default_description("a", "b", &Vec::new()), "a b ");
}

#[test]
fn end_to_end_without_username() {
    let cli = sample_cli();
    let template = "Description=<%description%>\nUser=<%user-line%>";
    let out = render_unit(&cli, "/srv", "/usr/local/bin/server", template).unwrap();
    assert_eq!(out, "Description=myapp server -v\nUser=");
}

#[test]
fn empty_optional_fields_give_empty_values() {
    let cli = sample_cli();
    let template = "[<%user-line%>][<%usergr-line%>]";
    let out = render_unit(&cli, "/srv", "/usr/local/bin/server", template).unwrap();
    assert_eq!(out, "[][]");
    assert_eq!(optional_line("User=", &None), "");
}

#[test]
fn given_optional_fields_give_lines() {
    let mut cli = sample_cli();
    cli.username = Some("bob".to_string());
    cli.usergroup = Some("staff".to_string());
    cli.description = Some("My service".to_string());
    cli.syslog_id = Some("mysvc".to_string());
    let template = "<%user-line%>|<%usergr-line%>|<%description%>|<%syslogid%>";
    let out = render_unit(&cli, "/srv", "/usr/local/bin/server", template).unwrap();
    assert_eq!(out, "User=bob|Group=staff|My service|mysvc");
}

#[test]
fn full_template() {
    let mut cli = sample_cli();
    cli.args = strings(&["--port", "8080", "hello world"]);
    cli.restart = "on-failure".to_string();
    cli.restart_after = 5;
    let template = "N=<%name%>\nW=<%workdir%>\nT=<%target%>\nS=<%syslogid%>\nR=<%restart%>\nRS=<%restart_after%>\nA=<%args%>";
    let out = render_unit(&cli, "/srv/app", "/usr/local/bin/server", template).unwrap();
    assert_eq!(
        out,
        "N=myapp\nW=/srv/app\nT=/usr/local/bin/server\nS=myapp\nR=on-failure\nRS=5\nA=--port 8080 \"hello world\""
    );
}

#[test]
fn pair_order_and_names() {
    let cli = sample_cli();
    let pairs = substitutions(&cli, "/w", "/t/x").unwrap();
    let names: Vec<&str> = pairs.iter().map(|p| p.0.as_str()).collect();
    assert_eq!(
        names,
        vec!["name", "workdir", "target", "user-line", "usergr-line", "description", "syslogid", "restart", "restart_after", "args"]
    );
    assert_eq!(pairs[8].1, "30");
}

#[test]
fn target_without_file_name_is_rejected() {
    let cli = sample_cli();
    assert_eq!(substitutions(&cli, "/w", "/").unwrap_err(), UnitError::MissingFileName);
    assert_eq!(render_unit(&cli, "/w", "/opt/", "x").unwrap_err(), UnitError::MissingFileName);
}

#[test]
fn basename_takes_last_segment() {
    assert_eq!(basename("/usr/local/bin/server"), Some("server".to_string()));
    assert_eq!(basename("server"), Some("server".to_string()));
    assert_eq!(basename("/"), None);
    assert_eq!(basename(""), None);
}

#[test]
fn decimal_formatting() {
    assert_eq!(decimal_string(0), "0");
    assert_eq!(decimal_string(30), "30");
    assert_eq!(decimal_string(u64::MAX), u64::MAX.to_string());
}

#[test]
fn joining_and_file_name() {
    assert_eq!(join_spaced(&strings(&["a", "b c", ""])), "a b c ");
    assert_eq!(service_file_name("myapp"), "myapp.service");
}

#[test]
fn defaults_of_new() {
    let cli = Cli::new("n".to_string(), "t".to_string());
    assert_eq!(cli.template_file, "rust.service.templ");
    assert_eq!(cli.workdir, ".");
    assert_eq!(cli.restart, "always");
    assert_eq!(cli.restart_after, 30);
    assert!(cli.args.is_empty());
}
