use cppwatch::watcher::{check_dirs, not_found_err, parse_command, read_delay, Config};

fn config(watch_dir: &str, build_dir: &str) -> Config {
    Config {
        watch_dir: watch_dir.to_string(),
        build_dir: build_dir.to_string(),
        build_command: "make -j4".to_string(),
        test_command: "make test".to_string(),
        delay: None,
    }
}

#[test]
fn cli_build_dir_defaults_to_watch_dir() {
    assert_eq!(config("/src", "").get_build_dir(), "/src");
}

#[test]
fn cli_absolute_build_dir_used_as_is() {
    assert_eq!(config("/src", "/out").get_build_dir(), "/out");
}

#[test]
fn cli_relative_build_dir_joined_under_watch_dir() {
    assert_eq!(config("/src", "build").get_build_dir(), "/src/build");
}

#[test]
fn cli_parse_command_splits_program_and_args() {
    let cmd = parse_command("make -j4 all").expect("every line parses");
    assert_eq!(cmd.prog, "make");
    assert_eq!(cmd.args, vec!["-j4".to_string(), "all".to_string()]);
}

#[test]
fn cli_parse_command_of_empty_line() {
    let cmd = parse_command("").expect("every line parses");
    assert_eq!(cmd.prog, "");
    assert!(cmd.args.is_empty());
}

#[test]
fn cli_parse_command_keeps_empty_words() {
    let cmd = parse_command("a  b").expect("every line parses");
    assert_eq!(cmd.prog, "a");
    assert_eq!(cmd.args, vec!["".to_string(), "b".to_string()]);
}

#[test]
fn cli_get_commands_in_step_order() {
    let cmds = config("/src", "").get_commands();
    assert_eq!(cmds.len(), 2);
    assert_eq!(cmds[0].prog, "make");
    assert_eq!(cmds[0].args, vec!["-j4".to_string()]);
    assert_eq!(cmds[1].prog, "make");
    assert_eq!(cmds[1].args, vec!["test".to_string()]);
}

#[test]
fn cli_read_delay_values() {
    assert_eq!(read_delay(""), None);
    assert_eq!(read_delay("0"), Some(0));
    assert_eq!(read_delay("5"), Some(5));
    assert_eq!(read_delay("+7"), Some(7));
    assert_eq!(read_delay("18446744073709551615"), Some(u64::MAX));
}

#[test]
fn cli_read_delay_rejects_garbage() {
    assert_eq!(read_delay("abc"), None);
    assert_eq!(read_delay("1x"), None);
    assert_eq!(read_delay("-1"), None);
    assert_eq!(read_delay("+"), None);
    assert_eq!(read_delay("18446744073709551616"), None);
}

#[test]
fn cli_check_dirs_reports_the_first_missing_dir() {
    assert!(check_dirs(true, true).is_ok());
    let e = check_dirs(false, true).unwrap_err();
    assert_eq!(e.msg, "invalid watch directory");
    let e = check_dirs(true, false).unwrap_err();
    assert_eq!(e.msg, "invalid build directory");
    let e = check_dirs(false, false).unwrap_err();
    assert_eq!(e.msg, "invalid watch directory");
}

#[test]
fn cli_not_found_err_keeps_message() {
    assert_eq!(not_found_err("nothing here").msg, "nothing here");
}
