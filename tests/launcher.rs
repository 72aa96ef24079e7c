use spwn::apps::{build_index, get_all_apps, App, AppProvider, WindowsProvider};
use spwn::command::{finish_command, finish_shell_command, plan_command, plan_for_words, CommandPlan};
use spwn::desktop::{parse_desktop_entry, LinuxProvider};
use spwn::plugins::{default_handlers, resolve_and_run, AppPlugin, Handler, Plugin, Request, Shell};
use spwn::state::{Direction, InteractionState, Mode};

fn app(name: &str, exec: &str) -> App {
    App { name: name.to_string(), exec_path: exec.to_string(), icon_name: None }
}

fn entry(name: &str, exec: &str) -> String {
    format!("[Desktop Entry]\nName={}\nExec={}\n", name, exec)
}

fn names(state: &InteractionState) -> Vec<String> {
    state.filtered.iter().map(|&i| state.apps[i].name.clone()).collect()
}

fn sample_state() -> InteractionState {
    InteractionState::new(vec![
        app("Files", "nautilus"),
        app("Firefox", "firefox"),
        app("Terminal", "gnome-terminal"),
    ])
}

#[test]
fn desktop_entry_round_trip() {
    let parsed = parse_desktop_entry("[Desktop Entry]\nName=Foo\nExec=foo --flag arg\n").unwrap();
    assert_eq!(parsed.name, "Foo");
    assert_eq!(parsed.exec_path, "foo");
    assert_eq!(parsed.icon_name, None);
}

#[test]
fn desktop_entry_trims_and_reads_icon() {
    let text = "# comment\n\n[Desktop Entry]\r\n  Name =  Web Browser  \r\nExec=  /usr/bin/fx %u\r\nIcon= fx-icon \r\n";
    let parsed = parse_desktop_entry(text).unwrap();
    assert_eq!(parsed.name, "Web Browser");
    assert_eq!(parsed.exec_path, "/usr/bin/fx");
    assert_eq!(parsed.icon_name, Some("fx-icon".to_string()));
}

#[test]
fn desktop_entry_hidden_gives_nothing() {
    let text = "[Desktop Entry]\nName=Foo\nExec=foo\nNoDisplay=true\n";
    assert_eq!(parse_desktop_entry(text), None);
    let shown = "[Desktop Entry]\nName=Foo\nExec=foo\nNoDisplay=false\n";
    assert!(parse_desktop_entry(shown).is_some());
}

#[test]
fn desktop_entry_needs_name_and_exec() {
    assert_eq!(parse_desktop_entry("[Desktop Entry]\nName=Foo\n"), None);
    assert_eq!(parse_desktop_entry("[Desktop Entry]\nExec=foo\n"), None);
    assert_eq!(parse_desktop_entry("[Desktop Entry]\nName=Foo\nExec=   \n"), None);
    assert_eq!(parse_desktop_entry(""), None);
}

#[test]
fn desktop_entry_ignores_other_sections() {
    let text = "[Other]\nName=Wrong\nExec=wrong\n[Desktop Entry]\nName=Right\nExec=right\n";
    let parsed = parse_desktop_entry(text).unwrap();
    assert_eq!(parsed.name, "Right");
    assert_eq!(parsed.exec_path, "right");
}

#[test]
fn desktop_entry_stops_after_main_section() {
    let text = "[Desktop Entry]\nName=A\nExec=a\n[Desktop Action new]\nName=B\n[Desktop Entry]\nNoDisplay=true\n";
    let parsed = parse_desktop_entry(text).unwrap();
    assert_eq!(parsed.name, "A");
    assert_eq!(parsed.exec_path, "a");
}

#[test]
fn desktop_entry_later_keys_override() {
    let text = "[Desktop Entry]\nName=A\nName=B\nExec=x\n";
    assert_eq!(parse_desktop_entry(text).unwrap().name, "B");
}

#[test]
fn index_is_sorted_and_keeps_first_of_each_name() {
    let built = build_index(vec![app("B", "b1"), app("A", "a"), app("B", "b2"), app("C", "c")]);
    assert_eq!(built, vec![app("A", "a"), app("B", "b1"), app("C", "c")]);
}

#[test]
fn index_of_nothing_is_empty() {
    assert!(build_index(vec![]).is_empty());
}

#[test]
fn all_apps_from_desktop_texts() {
    let sources = vec![
        entry("Zed", "zed"),
        "[Desktop Entry]\nName=Hidden\nExec=hidden\nNoDisplay=true\n".to_string(),
        "not a desktop entry".to_string(),
        entry("Alpha", "alpha --x"),
        entry("Zed", "other-zed"),
    ];
    let built = get_all_apps(sources.clone());
    assert_eq!(built, vec![app("Alpha", "alpha"), app("Zed", "zed")]);
    assert_eq!(LinuxProvider.get_apps(sources), built);
}

#[test]
fn windows_provider_sorts_and_dedups() {
    let built = WindowsProvider.get_apps(vec![app("b", "1"), app("a", "2"), app("b", "3")]);
    assert_eq!(built, vec![app("a", "2"), app("b", "1")]);
}

#[test]
fn plan_splits_words() {
    assert_eq!(
        plan_command("echo hi"),
        CommandPlan::Spawn { program: "echo".to_string(), args: vec!["hi".to_string()] }
    );
    assert_eq!(
        plan_command("printf '%s' \"a b\" c\\ d"),
        CommandPlan::Spawn {
            program: "printf".to_string(),
            args: vec!["%s".to_string(), "a b".to_string(), "c d".to_string()],
        }
    );
}

#[test]
fn plan_empty_and_blank() {
    assert_eq!(plan_command(""), CommandPlan::Finished(Ok(String::new())));
    assert_eq!(plan_command("   "), CommandPlan::Finished(Ok(String::new())));
}

#[test]
fn plan_unterminated_quote() {
    assert_eq!(
        plan_command("echo 'abc"),
        CommandPlan::Finished(Err("Parse error: missing closing quote".to_string()))
    );
}

#[test]
fn finish_success_and_failure() {
    assert_eq!(finish_command(true, Some(0), b"hi\n".to_vec(), vec![]), Ok("hi\n".to_string()));
    assert_eq!(
        finish_command(false, Some(1), vec![], vec![]),
        Err("Command failed with status Some(1)".to_string())
    );
    assert_eq!(
        finish_command(false, Some(-3), vec![], vec![]),
        Err("Command failed with status Some(-3)".to_string())
    );
    assert_eq!(
        finish_command(false, None, vec![], vec![]),
        Err("Command failed with status None".to_string())
    );
    assert_eq!(finish_command(false, Some(2), vec![], b"boom\n".to_vec()), Err("boom\n".to_string()));
}

#[test]
fn finish_rejects_invalid_utf8() {
    let r = finish_command(true, Some(0), vec![0x66, 0xff], vec![]);
    let e = r.unwrap_err();
    assert!(!e.is_empty());
    assert_eq!(finish_command(false, Some(1), vec![], vec![0xff]), Err("Unknown error".to_string()));
}

#[test]
fn finish_shell_is_lenient() {
    assert_eq!(finish_shell_command(true, Some(0), vec![0x61, 0xff], vec![]), Ok("a\u{fffd}".to_string()));
    assert_eq!(
        finish_shell_command(false, Some(4), vec![], vec![]),
        Err("Command failed with status Some(4)".to_string())
    );
    assert_eq!(finish_shell_command(false, Some(4), vec![], b"no".to_vec()), Err("no".to_string()));
}

#[test]
fn shell_claims_prefixed_input() {
    assert!(Shell.can_handle("> ls"));
    assert!(Shell.can_handle("   >ls"));
    assert!(!Shell.can_handle("ls > out"));
    assert!(!Shell.can_handle(""));
}

#[test]
fn shell_strips_markers() {
    assert_eq!(Shell.execute(">>  echo hi  "), Request::Run("echo hi".to_string()));
    assert_eq!(Shell.execute(" > "), Request::Done);
}

#[test]
fn app_plugin_never_claims() {
    assert!(!AppPlugin.can_handle("> ls"));
    assert!(!AppPlugin.can_handle("firefox"));
    assert_eq!(AppPlugin.execute(""), Request::Done);
    assert_eq!(AppPlugin.execute("firefox"), Request::Run("firefox".to_string()));
}

#[test]
fn dispatch_command_wins_over_selection() {
    let handlers = default_handlers();
    let selected = app("Firefox", "firefox");
    assert_eq!(
        resolve_and_run(&handlers, "> echo hi", Some(&selected)),
        Some(Request::Run("echo hi".to_string()))
    );
}

#[test]
fn dispatch_falls_back_to_selection() {
    let handlers = default_handlers();
    let selected = app("Firefox", "firefox");
    assert_eq!(
        resolve_and_run(&handlers, "fire", Some(&selected)),
        Some(Request::Run("firefox".to_string()))
    );
    assert_eq!(resolve_and_run(&handlers, "fire", None), None);
}

#[test]
fn dispatch_respects_handler_order() {
    let only_apps = vec![Handler::Application(AppPlugin)];
    assert_eq!(resolve_and_run(&only_apps, "> ls", None), None);
}

#[test]
fn query_fire_lists_firefox() {
    let mut state = sample_state();
    state.query_changed("fire".to_string());
    assert_eq!(names(&state), vec!["Firefox".to_string()]);
    assert_eq!(state.selected_index, 0);
    assert_eq!(state.mode(), Mode::Search);
}

#[test]
fn query_ignores_case() {
    let mut state = sample_state();
    state.query_changed("FI".to_string());
    assert_eq!(names(&state), vec!["Files".to_string(), "Firefox".to_string()]);
}

#[test]
fn empty_query_clears_everything() {
    let mut state = sample_state();
    state.query_changed("fi".to_string());
    state.execution_completed(Ok("old".to_string()));
    state.query_changed(String::new());
    assert!(state.filtered.is_empty());
    assert_eq!(state.result_text, "");
    assert_eq!(state.mode(), Mode::Search);
}

#[test]
fn command_query_lists_nothing() {
    let mut state = sample_state();
    state.query_changed("> fi".to_string());
    assert!(state.filtered.is_empty());
    assert_eq!(state.mode(), Mode::Command);
}

#[test]
fn navigate_wraps_both_ways() {
    let mut state = sample_state();
    state.query_changed("e".to_string());
    assert_eq!(state.filtered.len(), 3);
    for _ in 0..3 {
        state.navigate(Direction::Next);
    }
    assert_eq!(state.selected_index, 0);
    state.navigate(Direction::Previous);
    assert_eq!(state.selected_index, 2);
    state.navigate(Direction::Next);
    assert_eq!(state.selected_index, 0);
    state.navigate(Direction::Next);
    for _ in 0..3 {
        state.navigate(Direction::Previous);
    }
    assert_eq!(state.selected_index, 1);
}

#[test]
fn navigate_on_empty_list_stays() {
    let mut state = sample_state();
    state.navigate(Direction::Next);
    state.navigate(Direction::Previous);
    assert_eq!(state.selected_index, 0);
}

#[test]
fn submit_command_runs_and_stores_output() {
    let mut state = sample_state();
    state.query_changed("> echo hi".to_string());
    let request = state.submit();
    assert_eq!(request, Some(Request::Run("echo hi".to_string())));
    assert!(state.pending);
    assert_eq!(
        plan_command("echo hi"),
        CommandPlan::Spawn { program: "echo".to_string(), args: vec!["hi".to_string()] }
    );
    state.execution_completed(finish_command(true, Some(0), b"hi\n".to_vec(), vec![]));
    assert!(!state.pending);
    assert_eq!(state.result_text, "hi\n");
}

#[test]
fn submit_failing_command_stores_status() {
    let mut state = sample_state();
    state.query_changed("> false".to_string());
    assert_eq!(state.submit(), Some(Request::Run("false".to_string())));
    state.execution_completed(finish_command(false, Some(1), vec![], vec![]));
    assert_eq!(state.result_text, "Command failed with status Some(1)");
}

#[test]
fn submit_while_pending_does_nothing() {
    let mut state = sample_state();
    state.query_changed("> sleep 1".to_string());
    assert!(state.submit().is_some());
    assert_eq!(state.submit(), None);
    assert!(state.pending);
    assert_eq!(state.query, "> sleep 1");
    state.execution_completed(Err("late".to_string()));
    assert!(!state.pending);
    assert_eq!(state.result_text, "late");
}

#[test]
fn submit_launches_selection_and_hides() {
    let mut state = sample_state();
    state.query_changed("fire".to_string());
    assert_eq!(state.submit(), Some(Request::Run("firefox".to_string())));
    assert!(state.pending);
    assert!(!state.visible);
}

#[test]
fn submit_without_selection_is_a_no_op() {
    let mut state = sample_state();
    state.query_changed("zzz".to_string());
    assert_eq!(state.submit(), None);
    assert!(!state.pending);
    assert!(state.visible);
}

#[test]
fn empty_command_completes_without_process() {
    let mut state = sample_state();
    state.query_changed(">".to_string());
    assert_eq!(state.submit(), Some(Request::Done));
    state.execution_completed(Ok(String::new()));
    assert_eq!(state.result_text, "");
}

#[test]
fn toggle_shows_fresh_session() {
    let mut state = sample_state();
    state.query_changed("e".to_string());
    state.navigate(Direction::Next);
    state.execution_completed(Ok("out".to_string()));
    assert!(!state.visibility_toggle());
    assert!(!state.visible);
    assert_eq!(state.query, "e");
    assert!(state.visibility_toggle());
    assert!(state.visible);
    assert_eq!(state.query, "");
    assert_eq!(state.result_text, "");
    assert!(state.filtered.is_empty());
    assert_eq!(state.selected_index, 0);
    assert!(state.selected_app().is_none());
}

#[test]
fn close_hides() {
    let mut state = sample_state();
    state.close();
    assert!(!state.visible);
}

#[test]
fn selected_app_follows_selection() {
    let mut state = sample_state();
    state.query_changed("i".to_string());
    state.navigate(Direction::Next);
    assert_eq!(state.selected_app().unwrap().name, "Firefox");
}

#[test]
fn plan_from_split_words() {
    assert_eq!(
        plan_for_words(Some(vec!["ls".to_string(), "-l".to_string(), "a b".to_string()])),
        CommandPlan::Spawn { program: "ls".to_string(), args: vec!["-l".to_string(), "a b".to_string()] }
    );
    assert_eq!(plan_for_words(Some(vec![])), CommandPlan::Finished(Ok(String::new())));
    assert_eq!(
        plan_for_words(None),
        CommandPlan::Finished(Err("Parse error: missing closing quote".to_string()))
    );
}

#[test]
fn desktop_entry_empty_name_gives_nothing() {
    assert_eq!(parse_desktop_entry("[Desktop Entry]\nName=\nExec=x"), None);
    assert_eq!(parse_desktop_entry("[Desktop Entry]\nName=   \nExec=x\n"), None);
    assert!(get_all_apps(vec!["[Desktop Entry]\nName=\nExec=x".to_string()]).is_empty());
}

#[test]
fn desktop_entry_no_display_before_name() {
    let text = "[Desktop Entry]\n  NoDisplay = true \nName=Foo\nExec=foo\nIcon=foo\n";
    assert_eq!(parse_desktop_entry(text), None);
    let outside = "[Other]\nNoDisplay=true\n[Desktop Entry]\nName=Foo\nExec=foo\n";
    assert_eq!(parse_desktop_entry(outside).unwrap().name, "Foo");
}

#[test]
fn finish_shell_keeps_whitespace_stderr() {
    assert_eq!(finish_shell_command(false, Some(1), vec![], b"  \n".to_vec()), Err("  \n".to_string()));
}
