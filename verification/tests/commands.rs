use coox::command::app_command::{AppCommand, RuntimeCommand, UiCommand};
use coox::command::builtins::builtins;
use coox::command::input::{parse_input, InputIntent, SlashInvocation};
use coox::command::slash::{
    SessionSnapshot, SlashCommand, SlashCommandBuild, SlashCommandRegistry, SlashCommandSpec,
    SlashError, TurnSnapshot,
};
use coox::command_menu::{matches_for, pad_text, CommandMenu};
use coox::config::{env_setting, RuntimeConfig, DEFAULT_MODEL};
use coox::geometry::Rect;
use coox::startup::{
    filesystem_root, path_to_vfs, workspace_name, workspace_prompt, workspace_vfs_root,
    PathComponent,
};
use coox::workspace::router::WorkspaceContext;
use ratatui::widgets::{List, ListState, StatefulWidget};
use std::path::{Component, Path, PathBuf};

fn snapshot() -> SessionSnapshot<'static> {
    SessionSnapshot {
        model_id: "gpt-test",
        turn_state: TurnSnapshot::Idle,
    }
}

#[test]
fn default_config_uses_non_empty_model_id() {
    let config = RuntimeConfig::from_values(None, None, None, None);

    assert_eq!(config.model_id, DEFAULT_MODEL);
    assert_eq!(config.model.parallel_tool_calls, Some(true));
}

#[test]
fn blank_settings_count_as_missing() {
    assert_eq!(env_setting(Some("  ".to_string())), None);
    assert_eq!(env_setting(None), None);
    assert_eq!(env_setting(Some(" key \n".to_string())), Some("key".to_string()));
    let config = RuntimeConfig::from_values(
        Some(" k".to_string()),
        Some(String::new()),
        None,
        Some("p".to_string()),
    );
    assert_eq!(config.provider.api_key.as_deref(), Some("k"));
    assert_eq!(config.provider.api_base, None);
    assert_eq!(config.provider.organization, None);
    assert_eq!(config.provider.project.as_deref(), Some("p"));
    assert_eq!(config.model.reasoning_summary.as_deref(), Some("auto"));
}

#[test]
fn help_registry_includes_all_builtin_commands() {
    let registry = builtins();
    let names = registry
        .iter()
        .map(|command| command.spec.name)
        .collect::<Vec<_>>();

    for expected in ["help", "clear", "quit", "model", "stop", "pause", "resume"] {
        assert!(names.contains(&expected), "{expected} missing");
    }

    for removed in ["reset", "fold", "temp", "toolchoice"] {
        assert!(!names.contains(&removed), "{removed} should be removed");
    }
}

#[test]
fn clear_resets_runtime_and_visible_conversation() {
    let registry = builtins();
    let command = registry.find("clear").expect("clear command");

    let commands = command.build("", &snapshot()).expect("clear command");

    assert_eq!(
        commands,
        vec![
            AppCommand::Runtime(RuntimeCommand::ClearSessionHistory),
            AppCommand::Ui(UiCommand::ClearConversation),
        ]
    );
}

#[test]
fn model_without_args_outputs_current_model() {
    let registry = builtins();
    let command = registry.find("model").expect("model command");

    let commands = command.build("", &snapshot()).expect("model output");

    assert_eq!(
        commands,
        vec![AppCommand::Ui(UiCommand::PushCommandOutput(
            "model: gpt-test".to_string()
        ))]
    );
}

#[test]
fn model_with_one_argument_switches_the_model() {
    let registry = builtins();
    let command = registry.find("model").expect("model command");

    let commands = command.build(" gpt-next ", &snapshot()).expect("switch");

    assert_eq!(
        commands,
        vec![AppCommand::Runtime(RuntimeCommand::SwitchModel(
            "gpt-next".to_string()
        ))]
    );
}

#[test]
fn commands_without_arguments_refuse_them() {
    let registry = builtins();
    for name in ["help", "clear", "quit", "stop", "pause", "resume"] {
        let command = registry.find(name).expect("command");
        let error = command.build("extra", &snapshot()).expect_err("refused");
        assert_eq!(
            error,
            SlashError::Usage {
                message: "unexpected arguments".to_string(),
                usage: command.spec.usage,
            }
        );
        assert!(error.render().contains("unexpected arguments"));
        assert!(error.render().contains(command.spec.usage));
    }
    assert_eq!(SlashError::Message("no".to_string()).render(), "no");
}

#[test]
fn whitespace_only_does_not_submit() {
    assert_eq!(parse_input(" \n\t "), None);
}

#[test]
fn normal_text_stays_user_text() {
    assert_eq!(
        parse_input("hello /help"),
        Some(InputIntent::UserText("hello /help".to_string()))
    );
}

#[test]
fn double_slash_escapes_user_text() {
    assert_eq!(
        parse_input("//hello"),
        Some(InputIntent::UserText("/hello".to_string()))
    );
}

#[test]
fn slash_command_splits_name_and_args() {
    assert_eq!(
        parse_input("/model   gpt-5.5"),
        Some(InputIntent::Slash(SlashInvocation {
            name: "model".to_string(),
            args: "gpt-5.5".to_string(),
        }))
    );
}

#[test]
fn slash_command_without_args_has_none() {
    assert_eq!(
        parse_input("/quit"),
        Some(InputIntent::Slash(SlashInvocation {
            name: "quit".to_string(),
            args: String::new(),
        }))
    );
}

#[test]
fn registry_finds_command_names() {
    let registry = builtins();

    let command = registry.find("quit").expect("quit command");

    assert_eq!(command.spec.name, "quit");
    assert!(registry.find("q").is_none());
}

fn components(path: &Path) -> Vec<PathComponent> {
    path.components()
        .map(|component| match component {
            Component::Prefix(prefix) => {
                PathComponent::Prefix(prefix.as_os_str().to_string_lossy().into_owned())
            }
            Component::RootDir => PathComponent::RootDir,
            Component::CurDir => PathComponent::CurDir,
            Component::ParentDir => PathComponent::ParentDir,
            Component::Normal(name) => PathComponent::Normal(name.to_string_lossy().into_owned()),
        })
        .collect()
}

#[test]
fn workspace_name_uses_last_path_component() {
    assert_eq!(workspace_name(&components(Path::new("/tmp/copro"))), "copro");
}

#[test]
fn workspace_name_falls_back_for_root_path() {
    assert_eq!(workspace_name(&components(Path::new("/"))), ".");
}

#[test]
fn filesystem_root_uses_system_root() {
    let path = Path::new("/tmp/copro");
    let parts = filesystem_root(&components(path));
    let root: PathBuf = path.components().take(parts).collect();
    assert_eq!(root, Path::new("/"));
}

#[test]
fn workspace_vfs_root_keeps_relative_and_absolute_tool_paths_working() {
    let fs_root: vfs::async_vfs::AsyncVfsPath = vfs::async_vfs::AsyncMemoryFS::new().into();

    let workspace_root =
        workspace_vfs_root(&fs_root, &components(Path::new("/tmp/copro"))).expect("workspace root");

    assert_eq!(workspace_root.as_str(), "/tmp/copro");
    assert_eq!(
        workspace_root.join("src/main.rs").unwrap().as_str(),
        "/tmp/copro/src/main.rs"
    );
    assert_eq!(
        workspace_root.join("/Users/wzk/file.txt").unwrap().as_str(),
        "/Users/wzk/file.txt"
    );
}

#[test]
fn paths_keep_their_way_up_and_lose_their_root() {
    assert_eq!(path_to_vfs(&components(Path::new("/a/../b"))), "a/../b");
    assert_eq!(path_to_vfs(&components(Path::new("/"))), "");
}

#[test]
fn workspace_prompt_names_both_places() {
    let prompt = workspace_prompt(&WorkspaceContext {
        current_workspace: "/tmp/copro".to_string(),
        filesystem_root: "/".to_string(),
    });
    assert!(prompt.starts_with("Current workspace: /tmp/copro\nFilesystem root: /\n"));
}

#[test]
fn open_predicate_excludes_double_slash_and_whitespace() {
    let menu = CommandMenu::new();

    assert!(menu.is_open("/"));
    assert!(menu.is_open("/mo"));
    assert!(!menu.is_open("//mo"));
    assert!(!menu.is_open("/model "));
    assert!(!menu.is_open("hello"));
}

#[test]
fn filters_by_name() {
    let registry = builtins();

    let by_name = matches_for(&registry, "/mo");
    let by_infix = matches_for(&registry, "/su");
    let by_single_character = matches_for(&registry, "/q");
    let empty_query = matches_for(&registry, "/");
    let by_r = matches_for(&registry, "/r");

    assert_eq!(by_name[0].spec.name, "model");
    assert_eq!(by_infix[0].spec.name, "resume");
    assert_eq!(by_single_character[0].spec.name, "quit");
    assert_eq!(empty_query.len(), builtins().commands.len());
    assert_eq!(by_r[0].spec.name, "resume");
}

#[test]
fn selected_clamps_after_refilter() {
    let registry = builtins();
    let mut menu = CommandMenu::new();

    menu.select_next("/", &registry);
    menu.select_next("/", &registry);
    assert!(menu.selected > Some(0));
    let selected = menu
        .selected_command("/mo", &registry)
        .expect("selected command");

    assert_eq!(selected.spec.name, "model");
    assert_eq!(menu.selected, Some(0));
}

#[test]
fn next_selection_wraps_to_first_match() {
    let registry = builtins();
    let mut menu = CommandMenu::new();
    let len = matches_for(&registry, "/").len();

    for _ in 0..len {
        menu.select_next("/", &registry);
    }

    assert_eq!(menu.selected, Some(0));
}

#[test]
fn previous_selection_wraps_to_last_match() {
    let registry = builtins();
    let mut menu = CommandMenu::new();
    let len = matches_for(&registry, "/").len();

    menu.select_prev("/", &registry);

    assert_eq!(menu.selected, Some(len - 1));
}

#[test]
fn next_then_previous_selects_the_same() {
    let registry = builtins();
    let mut menu = CommandMenu::new();
    for _ in 0..matches_for(&registry, "/").len() {
        let before = menu.selected;
        menu.select_next("/", &registry);
        menu.select_prev("/", &registry);
        assert_eq!(menu.selected, before);
        menu.select_next("/", &registry);
    }
}

#[test]
fn dismiss_closes_until_input_changes() {
    let mut menu = CommandMenu::new();

    menu.dismiss();
    assert!(!menu.is_open("/mo"));
    menu.input_changed();
    assert!(menu.is_open("/mo"));
}

#[test]
fn render_uses_full_area_width() {
    let registry = builtins();
    let mut menu = CommandMenu::new();
    let area = Rect::new(0, 0, 60, 10);

    let drawing = menu.render(area, "/", &registry).expect("menu");
    menu.drawn(Some(Rect::new(
        area.x,
        area.bottom() - drawing.height,
        area.width,
        drawing.height,
    )));

    let rect = menu.overlay_rect.expect("menu overlay rect");
    assert_eq!(rect.x, 0);
    assert_eq!(rect.width, 60);
    assert_eq!(drawing.height, 9);
    assert!(menu.contains(0, 9));
    assert!(!menu.contains(0, 0));
}

fn scroll_registry() -> SlashCommandRegistry {
    let names = [
        "cmd00", "cmd01", "cmd02", "cmd03", "cmd04", "cmd05", "cmd06", "cmd07", "cmd08", "cmd09",
        "cmd10",
    ];
    SlashCommandRegistry::new(
        names
            .iter()
            .map(|name| SlashCommand {
                spec: SlashCommandSpec {
                    name,
                    summary: "Test command",
                    usage: "/test",
                },
                build: SlashCommandBuild::Help,
            })
            .collect(),
    )
}

#[test]
fn render_scrolls_selected_command_into_view() {
    let registry = scroll_registry();
    let mut menu = CommandMenu::new();
    for _ in 0..10 {
        menu.select_next("/cmd", &registry);
    }

    let drawing = menu
        .render(Rect::new(0, 0, 60, 10), "/cmd", &registry)
        .expect("menu");

    assert_eq!(menu.selected, Some(10));
    assert_eq!(drawing.selected, 10);
    assert_eq!(drawing.height, 10);

    let inner = ratatui::layout::Rect::new(0, 0, 60, drawing.height - 2);
    let mut buffer = ratatui::buffer::Buffer::empty(inner);
    let mut list_state = ListState::default();
    list_state.select(Some(drawing.selected));
    let lines = drawing.lines.iter().map(|line| line.text()).collect::<Vec<_>>();
    StatefulWidget::render(List::new(lines), inner, &mut buffer, &mut list_state);
    assert!(list_state.offset() > 0);

    let rendered = (0..inner.height)
        .flat_map(|y| (0..inner.width).map(move |x| (x, y)))
        .map(|at| buffer[at].symbol().to_string())
        .collect::<String>();
    assert!(rendered.contains("/cmd10"));
    assert!(!rendered.contains("/cmd00"));
}

#[test]
fn a_closed_menu_is_not_drawn() {
    let registry = builtins();
    let mut menu = CommandMenu::new();
    assert!(menu.render(Rect::new(0, 0, 60, 10), "hello", &registry).is_none());
    assert!(menu.render(Rect::new(0, 0, 60, 10), "/nothing", &registry).is_none());
    assert!(menu.render(Rect::new(0, 0, 0, 10), "/", &registry).is_none());
    assert_eq!(menu.selected_command("/nothing", &registry).map(|c| c.spec.name), None);
}

#[test]
fn names_are_padded_by_characters() {
    assert_eq!(pad_text("ab", 4), "ab  ");
    assert_eq!(pad_text("abcde", 4), "abcde");
}
