use fini::actions::{Actions, get_archived_task_ids, get_task_ids_before_date, get_task_ids_for_date};
use fini::commands::{Command, InteractiveStep, LinkFormat, execute_command, interactive_command, interactive_menu};
use fini::config::{HomePath, PrompterType, default_copy_link_format, default_list_link_format, home_relative};
use fini::copier::{CopyContent, CopyPayload, HtmlPayload, MockCopier, TextPayload, Copier};
use fini::date::{Date, date_text, parse_date, today};
use fini::error::FiniError;
use fini::indices::{get_id_for_index, get_id_for_title, get_ids_for_indices};
use fini::markdown::{
    archived_tasks_as_markdown, dates_are_valid, parse_markdown_archive_with_start_id, parse_markdown_tasks,
    tasks_as_markdown,
};
use fini::printer::{MockPrinter, Printer};
use fini::prompter::{MockPrompter, Prompter};
use fini::session::{SessionCommand, session_command, session_header, session_menu};
use fini::storage::{
    InMemoryStorage, TaskStorage, YearMonth, archive_files, default_board_name, group_tasks_by_month,
    is_archive_file_name, name_less, read_archive_texts, saved_board_name, sorted_board_names,
};
use fini::task_item::{
    Status, TaskItem, TaskItemCopyable, TaskItemCopyableMarkdown, TaskItemFiniMarkdown, TaskItemHyperlinked,
    TaskItemWithIndex, TaskItemWithStatus, format_hyperlink, get_task_link_for_format, with_status_string,
};
use fini::util::{
    Toggle, copy_archived, copy_with_markdown_links, clear_tasks, get_next_id, get_task_for_id, get_task_id_by_index_from_list, get_task_ids_after_date,
    get_tasks_for_ids, sort_visible_items, toggle_tasks,
};
use strip_ansi_escapes::strip_str;

fn task(id: usize, title: &str, status: Status, date: Option<Date>, link: Option<&str>, star: Option<bool>) -> TaskItem {
    TaskItem::new(id, title.to_string(), status, date, link.map(|l| l.to_string()), star)
}

fn d(year: i32, month: u32, day: u32) -> Date {
    Date { year, month, day }
}

fn sample() -> Vec<TaskItem> {
    vec![
        task(1, "Alpha", Status::Todo, None, None, None),
        task(2, "Bravo", Status::InProgress, Some(d(2024, 3, 5)), Some("https://b"), Some(true)),
        task(3, "Charlie", Status::Done, Some(d(2024, 3, 4)), None, None),
    ]
}

fn run(storage: &mut InMemoryStorage, printer: &mut MockPrinter, copier: &mut MockCopier, prompter: &MockPrompter, command: Command) -> Result<(), FiniError> {
    execute_command(storage, prompter, copier, printer, command).map(|_| ())
}

#[test]
fn task_file_text_is_exact() {
    let text = tasks_as_markdown(sample());
    assert_eq!(
        text,
        "## Active Tasks\n- [ ] Alpha\n\n## 2024-03-04\n- [x] Charlie\n\n## 2024-03-05\n- [~] ⭐️ [Bravo](https://b)"
    );
}

#[test]
fn task_file_reads_back_sorted_and_renumbered() {
    let text = tasks_as_markdown(sample());
    let tasks = parse_markdown_tasks(&text, 1).unwrap();
    let titles: Vec<&str> = tasks.iter().map(|t| t.title.as_str()).collect();
    assert_eq!(titles, vec!["Bravo", "Alpha", "Charlie"]);
    let ids: Vec<usize> = tasks.iter().map(|t| t.id).collect();
    assert_eq!(ids, vec![3, 1, 2]);
    assert_eq!(tasks[0].link, Some("https://b".to_string()));
    assert_eq!(tasks[0].star, Some(true));
    assert_eq!(tasks[0].active_date, Some(d(2024, 3, 5)));
    assert_eq!(tasks[1].active_date, None);
    assert_eq!(tasks[2].status, Status::Done);
}

#[test]
fn empty_texts_hold_no_tasks() {
    assert_eq!(parse_markdown_tasks("", 1).unwrap().len(), 0);
    assert_eq!(parse_markdown_archive_with_start_id("", 100000).unwrap().len(), 0);
}

#[test]
fn unreadable_date_header_is_an_error() {
    let r = parse_markdown_tasks("## Active Tasks\n- [ ] A task\n\n## 2024-13-40\n- [x] Other task", 1);
    match r {
        Err(FiniError::InvalidDate(text)) => assert_eq!(text, "2024-13-40"),
        _ => panic!("expected an invalid date"),
    }
}

#[test]
fn archive_listing_is_exact() {
    let items = vec![
        task(2, "Bravo", Status::Archived, Some(d(2024, 3, 5)), Some("https://b"), None),
        task(3, "Charlie", Status::Archived, Some(d(2024, 3, 4)), None, None),
    ];
    let text = archived_tasks_as_markdown(items, LinkFormat::Adjacent);
    assert_eq!(text, "\n## 2024-03-04\n- Charlie\n\n## 2024-03-05\n- Bravo https://b");
}

#[test]
fn archive_file_reads_back() {
    let items = vec![
        task(2, "Bravo", Status::Archived, Some(d(2024, 3, 5)), Some("https://b"), None),
        task(3, "Charlie", Status::Archived, Some(d(2024, 3, 4)), None, None),
    ];
    let text = archived_tasks_as_markdown(items, LinkFormat::Markdown);
    let back = parse_markdown_archive_with_start_id(&text, 100000).unwrap();
    assert_eq!(back.len(), 2);
    assert_eq!(back[0].title, "Charlie");
    assert_eq!(back[0].id, 100000);
    assert_eq!(back[1].title, "Bravo");
    assert_eq!(back[1].link, Some("https://b".to_string()));
    assert_eq!(back[1].id, 100001);
    assert_eq!(back[1].status, Status::Archived);
}

#[test]
fn dates_print_and_parse() {
    assert_eq!(date_text(d(2024, 3, 5)), "2024-03-05");
    assert_eq!(parse_date("2024-03-05").unwrap(), d(2024, 3, 5));
    assert!(parse_date("2024-02-30").is_err());
    assert!(parse_date("yesterday").is_err());
    let t = today();
    assert_eq!(parse_date(&date_text(t)).unwrap(), t);
}

#[test]
fn link_formats_are_exact() {
    let t = task(1, "Title", Status::Todo, None, Some("https://x"), None);
    assert_eq!(get_task_link_for_format(&t, LinkFormat::NoLink), "Title");
    assert_eq!(get_task_link_for_format(&t, LinkFormat::Adjacent), "Title https://x");
    assert_eq!(get_task_link_for_format(&t, LinkFormat::Markdown), "[Title](https://x)");
    assert_eq!(get_task_link_for_format(&t, LinkFormat::Newline), "Title\nhttps://x");
    assert_eq!(get_task_link_for_format(&t, LinkFormat::RichText), "<a href=\"https://x\">Title</a>");
    assert_eq!(strip_str(get_task_link_for_format(&t, LinkFormat::AdjacentColor)), "Title https://x");
    assert_eq!(strip_str(get_task_link_for_format(&t, LinkFormat::Hyperlink)), "Title [link]");
}

#[test]
fn hyperlink_is_osc8() {
    assert_eq!(
        format_hyperlink("https://x", "[link]"),
        "\x1b]8;;https://x\x1b\\[link]\x1b]8;;\x1b\\"
    );
}

#[test]
fn status_line_shows_star_and_symbol() {
    let t = task(1, "Title", Status::Done, None, None, Some(true));
    assert_eq!(strip_str(with_status_string(&t, LinkFormat::NoLink)), "★ ✔  Title");
    let a = task(1, "Gone", Status::Archived, None, None, None);
    assert_eq!(with_status_string(&a, LinkFormat::NoLink), "Gone");
}

#[test]
fn next_id_is_above_every_id() {
    assert_eq!(get_next_id(&vec![]), 1);
    assert_eq!(get_next_id(&sample()), 4);
    let tasks = vec![task(7, "Seven", Status::Todo, None, None, None), task(2, "Two", Status::Todo, None, None, None)];
    assert_eq!(get_next_id(&tasks), 8);
}

#[test]
fn visible_items_put_done_last_and_starred_first() {
    let mut items = sample();
    items.push(task(4, "Delta", Status::Archived, Some(d(2024, 1, 1)), None, None));
    items.push(task(5, "Echo", Status::Todo, None, None, Some(true)));
    let visible = sort_visible_items(&items);
    let titles: Vec<&str> = visible.iter().map(|t| t.title.as_str()).collect();
    assert_eq!(titles, vec!["Bravo", "Echo", "Alpha", "Charlie"]);
}

#[test]
fn toggling_twice_gives_the_task_back() {
    let mut tasks = vec![task(1, "Alpha", Status::Todo, None, None, None)];
    let day = d(2024, 3, 5);
    let (lines, missing) = toggle_tasks(Toggle::Check, &mut tasks, &vec![1], day);
    assert_eq!(lines, vec!["Completed task: Alpha".to_string()]);
    assert_eq!(missing, None);
    assert_eq!(tasks[0].status, Status::Done);
    assert_eq!(tasks[0].active_date, Some(day));
    let (lines, _) = toggle_tasks(Toggle::Check, &mut tasks, &vec![1], day);
    assert_eq!(lines, vec!["Moved task back to todo: Alpha".to_string()]);
    assert_eq!(tasks[0].status, Status::Todo);
    assert_eq!(tasks[0].active_date, None);
    let (lines, _) = toggle_tasks(Toggle::Star, &mut tasks, &vec![1], day);
    assert!(lines.is_empty());
    assert_eq!(tasks[0].star, Some(true));
    toggle_tasks(Toggle::Star, &mut tasks, &vec![1], day);
    assert_eq!(tasks[0].star, None);
}

#[test]
fn toggling_stops_at_a_missing_id() {
    let mut tasks = sample();
    let (lines, missing) = toggle_tasks(Toggle::Begin, &mut tasks, &vec![1, 9, 3], d(2024, 3, 6));
    assert_eq!(lines, vec!["Started task: Alpha".to_string()]);
    assert_eq!(missing, Some(9));
    assert_eq!(tasks[0].status, Status::InProgress);
    assert_eq!(tasks[2].status, Status::Done);
}

#[test]
fn clearing_keeps_unfinished_tasks_to_do() {
    let tasks = sample();
    let (kept, added) = clear_tasks(&tasks, 4);
    assert_eq!(kept.len(), 2);
    assert!(kept.iter().all(|t| t.status == Status::Todo));
    assert_eq!(added.len(), 2);
    assert_eq!(added[0].id, 4);
    assert_eq!(added[0].title, "Bravo");
    assert_eq!(added[0].star, None);
    assert_eq!(added[1].id, 3);
    assert!(added.iter().all(|t| t.status == Status::Archived));
}

#[test]
fn task_ids_after_date_and_between() {
    let tasks = sample();
    let statuses = vec![Status::Done, Status::InProgress, Status::Archived];
    assert_eq!(get_task_ids_after_date(&tasks, "2024-03-05", &statuses).unwrap(), vec![2]);
    assert_eq!(get_task_ids_after_date(&tasks, "2024-03-01", &statuses).unwrap(), vec![2, 3]);
    assert!(matches!(get_task_ids_after_date(&tasks, "March", &statuses), Err(FiniError::InvalidDate(_))));
    assert_eq!(
        fini::util::get_task_ids_between(&tasks, "2024-03-01", "2024-03-04", &statuses).unwrap(),
        vec![3]
    );
}

#[test]
fn tasks_for_ids_keep_the_list_order() {
    let tasks = get_tasks_for_ids(sample(), &vec![3, 1]);
    let titles: Vec<&str> = tasks.iter().map(|t| t.title.as_str()).collect();
    assert_eq!(titles, vec!["Alpha", "Charlie"]);
    let left = Actions::delete(sample(), &vec![2]);
    let titles: Vec<&str> = left.iter().map(|t| t.title.as_str()).collect();
    assert_eq!(titles, vec!["Alpha", "Charlie"]);
}

#[test]
fn index_from_list_is_one_based() {
    let tasks = sample();
    assert_eq!(get_task_id_by_index_from_list(1, &tasks), Some(1));
    assert_eq!(get_task_id_by_index_from_list(3, &tasks), Some(3));
    assert_eq!(get_task_id_by_index_from_list(4, &tasks), None);
}

#[test]
fn selections_by_date_and_status() {
    let mut tasks = sample();
    tasks.push(task(4, "Delta", Status::Archived, Some(d(2023, 12, 31)), None, None));
    assert_eq!(get_task_ids_for_date(&tasks, "2024-03-04"), vec![3]);
    assert_eq!(get_task_ids_before_date(&tasks, "2024-03-05"), vec![3, 4]);
    assert_eq!(get_archived_task_ids(&tasks), vec![4]);
}

#[test]
fn archive_file_names() {
    assert_eq!(YearMonth { year: 2024, month: 3 }.get_archive_filename(), "archived-2024-03.md");
    assert_eq!(YearMonth { year: 12345, month: 11 }.get_archive_filename(), format!("archived-{:04}-{:02}.md", 12345, 11));
    assert_eq!(YearMonth { year: -1, month: 12 }.get_archive_filename(), format!("archived-{:04}-{:02}.md", -1, 12));
    assert!(is_archive_file_name("archived-2024-03.md"));
    assert!(!is_archive_file_name("archived-24-3.md"));
    assert!(!is_archive_file_name("tasks.md"));
}

#[test]
fn tasks_grouped_by_month() {
    let items = vec![
        task(1, "A", Status::Archived, Some(d(2024, 3, 5)), None, None),
        task(2, "B", Status::Archived, Some(d(2024, 2, 1)), None, None),
        task(3, "C", Status::Archived, Some(d(2024, 3, 1)), None, None),
        task(4, "D", Status::Archived, None, None, None),
    ];
    let groups = group_tasks_by_month(items);
    assert_eq!(groups.len(), 2);
    assert_eq!(groups[0].0, YearMonth { year: 2024, month: 3 });
    assert_eq!(groups[0].1.len(), 2);
    assert_eq!(groups[0].1[1].title, "C");
    assert_eq!(groups[1].0, YearMonth { year: 2024, month: 2 });
}

#[test]
fn board_names_order() {
    assert!(name_less("alpha", "beta"));
    assert!(name_less("task", "tasks"));
    assert!(!name_less("tasks", "tasks"));
    assert!(!name_less("b", "a"));
}

#[test]
fn payloads_combine() {
    let t = TextPayload("a".to_string()).combine(TextPayload("b".to_string()));
    assert_eq!(t.0, "a\nb");
    let h = HtmlPayload { html: "<a>".to_string(), alt: "x".to_string() }
        .combine(HtmlPayload { html: "<b>".to_string(), alt: "y".to_string() });
    assert_eq!(h.html, "<a><br><b>");
    assert_eq!(h.alt, "x\ny");
    let mut copier = MockCopier::new();
    copier.copy(&CopyPayload::Html(h)).unwrap();
    assert_eq!(copier.html, "<a><br><b>");
    assert_eq!(copier.alt, "x\ny");
    assert_eq!(copier.text, "");
}

#[test]
fn printer_keeps_lines() {
    let mut printer = MockPrinter::new();
    printer.print("one");
    printer.print("two");
    assert_eq!(printer.text, "one\ntwo\n");
    printer.clear();
    assert_eq!(printer.text, "");
}

#[test]
fn defaults_of_the_settings() {
    assert_eq!(default_list_link_format(), LinkFormat::Newline);
    assert_eq!(default_copy_link_format(), LinkFormat::Adjacent);
    assert_eq!(PrompterType::default(), PrompterType::Inquire);
}

#[test]
fn interactive_menu_and_steps() {
    assert_eq!(interactive_menu().len(), 15);
    assert_eq!(interactive_menu()[14], "boards");
    assert!(matches!(interactive_command("boards"), InteractiveStep::Run(Command::Use { name: None })));
    assert!(matches!(interactive_command("quit"), InteractiveStep::Quit));
    assert!(matches!(interactive_command("list"), InteractiveStep::Relist));
    assert!(matches!(
        interactive_command("copy-markdown"),
        InteractiveStep::Run(Command::Copy { ids: None, format: LinkFormat::Markdown })
    ));
    assert!(matches!(interactive_command("list-archived"), InteractiveStep::Run(Command::Archived)));
    assert!(matches!(interactive_command("dance"), InteractiveStep::Unknown));
}

#[test]
fn stores_keep_boards_apart() {
    let mut storage = InMemoryStorage::new();
    let mut printer = MockPrinter::new();
    let mut copier = MockCopier::new();
    let prompter = MockPrompter::new();
    assert_eq!(storage.active_board(), "tasks");
    run(&mut storage, &mut printer, &mut copier, &prompter, Command::Add { title: Some("On tasks".to_string()), link: None }).unwrap();
    run(&mut storage, &mut printer, &mut copier, &prompter, Command::Use { name: Some("  work ".to_string()) }).unwrap();
    assert_eq!(storage.active_board(), "work");
    assert_eq!(storage.read_tasks().unwrap().len(), 0);
    run(&mut storage, &mut printer, &mut copier, &prompter, Command::Add { title: Some("On work".to_string()), link: None }).unwrap();
    printer.clear();
    run(&mut storage, &mut printer, &mut copier, &prompter, Command::Boards).unwrap();
    assert_eq!(printer.text, "  tasks\n* work\n");
    run(&mut storage, &mut printer, &mut copier, &prompter, Command::Use { name: Some("tasks".to_string()) }).unwrap();
    let tasks = storage.read_tasks().unwrap();
    assert_eq!(tasks.len(), 1);
    assert_eq!(tasks[0].title, "On tasks");
    assert_eq!(storage.list_boards().unwrap(), vec!["tasks".to_string(), "work".to_string()]);
}

#[test]
fn invalid_board_names_are_refused() {
    let mut storage = InMemoryStorage::new();
    let mut printer = MockPrinter::new();
    let mut copier = MockCopier::new();
    let prompter = MockPrompter::new();
    run(&mut storage, &mut printer, &mut copier, &prompter, Command::Use { name: Some("a/b".to_string()) }).unwrap();
    assert_eq!(printer.text, "Invalid board name: 'a/b'\n");
    assert_eq!(storage.active_board(), "tasks");
    printer.clear();
    run(&mut storage, &mut printer, &mut copier, &prompter, Command::Use { name: Some("tasks".to_string()) }).unwrap();
    assert_eq!(printer.text, "");
    run(&mut storage, &mut printer, &mut copier, &prompter, Command::Use { name: Some("b2".to_string()) }).unwrap();
    assert_eq!(printer.text, "Switched to board 'b2'.\n");
}

#[test]
fn board_path_of_a_memory_store() {
    let mut storage = InMemoryStorage::new();
    let mut printer = MockPrinter::new();
    let mut copier = MockCopier::new();
    let prompter = MockPrompter::new();
    run(&mut storage, &mut printer, &mut copier, &prompter, Command::BoardPath).unwrap();
    assert_eq!(printer.text, "No path available\n");
}

#[test]
fn command_errors_and_messages() {
    let mut storage = InMemoryStorage::new();
    let mut printer = MockPrinter::new();
    let mut copier = MockCopier::new();
    let prompter = MockPrompter::new();
    run(&mut storage, &mut printer, &mut copier, &prompter, Command::Add { title: Some("One".to_string()), link: None }).unwrap();
    assert_eq!(printer.text, "Added task: One\n");
    let r = run(&mut storage, &mut printer, &mut copier, &prompter, Command::Edit { id: Some(42) });
    assert!(matches!(r, Err(FiniError::NoTaskToEdit)));
    assert!(matches!(get_task_for_id(&storage, 42), Err(FiniError::TaskNotFound)));
    let r = run(&mut storage, &mut printer, &mut copier, &prompter, Command::ListAfterDate { date: Some("soon".to_string()), format: LinkFormat::Adjacent });
    assert!(matches!(r, Err(FiniError::InvalidDate(_))));
    printer.clear();
    run(&mut storage, &mut printer, &mut copier, &prompter, Command::Add { title: Some("".to_string()), link: None }).unwrap();
    assert_eq!(printer.text, "The title of the task cannot be empty.\n");
    printer.clear();
    run(&mut storage, &mut printer, &mut copier, &prompter, Command::Open { id: None }).unwrap();
    assert_eq!(printer.text, "No task selected\n");
    printer.clear();
    run(&mut storage, &mut printer, &mut copier, &prompter, Command::Open { id: Some(1) }).unwrap();
    assert_eq!(printer.text, "That task does not have a link\n");
    printer.clear();
    run(&mut storage, &mut printer, &mut copier, &prompter, Command::Star { ids: Some(vec![]) }).unwrap();
    assert_eq!(printer.text, "No tasks selected\n");
    printer.clear();
    run(&mut storage, &mut printer, &mut copier, &prompter, Command::Star { ids: Some(vec![1]) }).unwrap();
    assert_eq!(printer.text, "Starred the selected tasks\n");
    printer.clear();
    run(&mut storage, &mut printer, &mut copier, &prompter, Command::Copy { ids: Some(vec![5]), format: LinkFormat::Adjacent }).unwrap();
    assert_eq!(printer.text, "No tasks to copy\n");
}

#[test]
fn editing_a_task_trims_the_answers() {
    let mut storage = InMemoryStorage::new();
    let mut printer = MockPrinter::new();
    let mut copier = MockCopier::new();
    let mut prompter = MockPrompter::new();
    run(&mut storage, &mut printer, &mut copier, &prompter, Command::Add { title: Some("Old".to_string()), link: None }).unwrap();
    printer.clear();
    prompter.next_text_response = "  https://new  ".to_string();
    run(&mut storage, &mut printer, &mut copier, &prompter, Command::Edit { id: Some(1) }).unwrap();
    let tasks = storage.read_tasks().unwrap();
    assert_eq!(tasks[0].title, "https://new");
    assert_eq!(tasks[0].link, Some("https://new".to_string()));
    assert_eq!(printer.text, "Updated task: https://new\nUpdated task: https://new\n");
}

#[test]
fn copying_rich_text_gives_html() {
    let mut storage = InMemoryStorage::new();
    let mut printer = MockPrinter::new();
    let mut copier = MockCopier::new();
    let prompter = MockPrompter::new();
    run(&mut storage, &mut printer, &mut copier, &prompter, Command::Add { title: Some("One".to_string()), link: Some("https://1".to_string()) }).unwrap();
    run(&mut storage, &mut printer, &mut copier, &prompter, Command::Add { title: Some("Two".to_string()), link: None }).unwrap();
    printer.clear();
    run(&mut storage, &mut printer, &mut copier, &prompter, Command::Copy { ids: Some(vec![1, 2]), format: LinkFormat::RichText }).unwrap();
    assert_eq!(copier.html, "<a href=\"https://1\">One</a><br>Two");
    assert_eq!(copier.alt, "One https://1\nTwo");
    assert_eq!(printer.text, "Copied text for selected tasks\n");
    printer.clear();
    run(&mut storage, &mut printer, &mut copier, &prompter, Command::Copy { ids: Some(vec![1]), format: LinkFormat::Markdown }).unwrap();
    assert_eq!(copier.text, "[One](https://1)");
    assert_eq!(printer.text, "Copied text for task: [One](https://1)\n");
}

#[test]
fn clearing_then_deleting_through_commands() {
    let mut storage = InMemoryStorage::new();
    let mut printer = MockPrinter::new();
    let mut copier = MockCopier::new();
    let prompter = MockPrompter::new();
    run(&mut storage, &mut printer, &mut copier, &prompter, Command::Add { title: Some("Keep".to_string()), link: None }).unwrap();
    run(&mut storage, &mut printer, &mut copier, &prompter, Command::Add { title: Some("Drop".to_string()), link: None }).unwrap();
    let id = get_id_for_title(&storage, "Drop").unwrap().unwrap();
    printer.clear();
    run(&mut storage, &mut printer, &mut copier, &prompter, Command::Delete { ids: Some(vec![id]) }).unwrap();
    assert_eq!(printer.text, "Tasks to be deleted:\n  - Drop\n\n");
    assert_eq!(storage.read_tasks().unwrap().len(), 1);
    assert_eq!(get_ids_for_indices(&storage, vec![1, 5]).unwrap().len(), 1);
    assert_eq!(get_id_for_index(&storage, 2).unwrap(), None);
    printer.clear();
    run(&mut storage, &mut printer, &mut copier, &prompter, Command::Clear).unwrap();
    assert_eq!(printer.text, "Archived completed tasks\n");
}

#[test]
fn actions_on_a_task_list() {
    let mut items = sample();
    let (id, line) = Actions::add(&mut items, "Delta".to_string());
    assert_eq!(id, 4);
    assert_eq!(line, "Added task: Delta");
    let line = Actions::add_with_link(&mut items, "Echo".to_string(), "https://e".to_string());
    assert_eq!(line, "Added task: Echo");
    assert_eq!(items[4].id, 5);
    assert_eq!(items[4].link, Some("https://e".to_string()));
    assert_eq!(Actions::link(&mut items, 1, "https://a".to_string()), Some("Added link to task: Alpha".to_string()));
    assert_eq!(Actions::link(&mut items, 99, "https://z".to_string()), None);
    let (lines, changed, missing) = Actions::work(&mut items, &vec![99, 1]);
    assert_eq!(missing, vec![99]);
    assert_eq!(lines, vec!["Started task: Alpha".to_string()]);
    assert!(changed);
    let (line, changed, missing) = Actions::star(&mut items, &vec![98]);
    assert_eq!(missing, vec![98]);
    assert_eq!(line, "No tasks selected");
    assert!(!changed);
    let (text, line) = Actions::copy(&items, &vec![3, 1]);
    assert_eq!(text, "Alpha https://a\nCharlie");
    assert_eq!(line, "Copied text for tasks: 3, 1");
    let (lines, _, _) = Actions::done(&mut items, &vec![4]);
    assert_eq!(lines, vec!["Completed task: Delta".to_string()]);
    let line = Actions::clear(&mut items);
    assert_eq!(line, "Archived completed tasks");
    assert_eq!(items.len(), 7);
    assert_eq!(items[0].status, Status::Todo);
    assert_eq!(items[2].status, Status::Archived);
    assert_eq!(items[3].status, Status::Archived);
    assert_eq!(items[5].id, 6);
    assert_eq!(items[5].title, "Alpha");
    assert_eq!(items[5].status, Status::Archived);
    assert_eq!(items[6].id, 7);
    assert_eq!(items[6].title, "Bravo");
    assert_eq!(items[6].star, None);
    let listed: Vec<String> = Actions::list(&items).into_iter().map(strip_str).collect();
    assert_eq!(listed[0], " 1.  ☐  Alpha https://a");
    assert_eq!(listed[1], " 2.★ ☐  Bravo https://b");
    assert_eq!(listed.len(), 3);
    assert_eq!(Actions::list(&vec![]), vec!["No tasks".to_string()]);
    assert_eq!(sample()[1].get_copy_text(), "Bravo https://b");
    assert_eq!(fini::actions::get_task_id_by_index(2, &sample()), Some(2));
}

#[test]
fn archive_files_read_one_after_the_other() {
    let texts = vec![
        "\n## 2024-03-04\n- Charlie\n\n## 2024-03-05\n- Bravo".to_string(),
        String::new(),
        "\n## 2024-04-01\n- Delta".to_string(),
    ];
    let tasks = read_archive_texts(&texts).unwrap();
    let titles: Vec<&str> = tasks.iter().map(|t| t.title.as_str()).collect();
    assert_eq!(titles, vec!["Charlie", "Bravo", "Delta"]);
    let ids: Vec<usize> = tasks.iter().map(|t| t.id).collect();
    assert_eq!(ids, vec![100000, 100001, 100002]);
    assert_eq!(tasks[2].active_date, Some(d(2024, 4, 1)));
    assert!(read_archive_texts(&Vec::new()).unwrap().is_empty());
    let bad = vec!["\n## 2024-13-01\n- Echo".to_string()];
    assert!(matches!(read_archive_texts(&bad), Err(FiniError::InvalidDate(_))));
}

#[test]
fn archive_written_one_file_per_month() {
    let items = vec![
        task(1, "A", Status::Archived, Some(d(2024, 3, 5)), None, None),
        task(2, "B", Status::Archived, Some(d(2024, 4, 1)), Some("https://b"), None),
        task(3, "C", Status::Archived, Some(d(2024, 3, 4)), None, None),
        task(4, "D", Status::Archived, None, None, None),
    ];
    let files = archive_files(items);
    assert_eq!(files.len(), 2);
    assert_eq!(files[0].0, "archived-2024-03.md");
    assert_eq!(files[0].1, "\n## 2024-03-04\n- C\n\n## 2024-03-05\n- A");
    assert_eq!(files[1].0, "archived-2024-04.md");
    assert_eq!(files[1].1, "\n## 2024-04-01\n- [B](https://b)");
    let texts: Vec<String> = files.into_iter().map(|f| f.1).collect();
    let back = read_archive_texts(&texts).unwrap();
    let titles: Vec<&str> = back.iter().map(|t| t.title.as_str()).collect();
    assert_eq!(titles, vec!["C", "A", "B"]);
}

#[test]
fn board_names_on_start_and_in_lists() {
    assert_eq!(saved_board_name(Some("  work \n".to_string())), "work");
    assert_eq!(saved_board_name(None), "tasks");
    assert_eq!(default_board_name(), "tasks");
    assert_eq!(sorted_board_names(Vec::new()), vec!["tasks".to_string()]);
    let names = vec!["work".to_string(), "Home".to_string(), "home".to_string(), "a".to_string()];
    assert_eq!(
        sorted_board_names(names),
        vec!["Home".to_string(), "a".to_string(), "home".to_string(), "work".to_string()]
    );
}

#[test]
fn calendar_dates_are_checked() {
    assert!(d(2024, 2, 29).is_valid());
    assert!(!d(2023, 2, 29).is_valid());
    assert!(!d(1900, 2, 29).is_valid());
    assert!(d(2000, 2, 29).is_valid());
    assert!(!d(2024, 4, 31).is_valid());
    assert!(!d(2024, 13, 1).is_valid());
    assert!(!d(2024, 1, 0).is_valid());
    assert!(!d(262143, 1, 1).is_valid());
    assert!(dates_are_valid(&sample()));
    let mut tasks = sample();
    tasks.push(task(4, "Delta", Status::Todo, Some(d(2023, 2, 29)), None, None));
    assert!(!dates_are_valid(&tasks));
}

#[test]
fn task_shown_through_its_wrappers() {
    let t = task(7, "Title", Status::InProgress, None, Some("https://x"), Some(true));
    assert_eq!(TaskItemCopyable(&t).to_string(), "Title https://x");
    assert_eq!(TaskItemCopyableMarkdown(&t).to_string(), "[Title](https://x)");
    assert_eq!(TaskItemFiniMarkdown(&t).to_string(), "- [~] ⭐️ [Title](https://x)");
    assert_eq!(strip_str(TaskItemHyperlinked(&t).to_string()), "Title [link]");
    assert_eq!(strip_str(TaskItemWithStatus(&t, LinkFormat::Markdown).to_string()), "★ …  [Title](https://x)");
    assert_eq!(strip_str(TaskItemWithIndex(&t, 3, LinkFormat::NoLink).to_string()), " 3.★ …  Title");
    assert_eq!(strip_str(TaskItemWithIndex(&t, 12, LinkFormat::Adjacent).to_string()), "12.★ …  Title https://x");
    let plain = task(8, "Plain", Status::Todo, None, None, None);
    assert_eq!(TaskItemCopyableMarkdown(&plain).to_string(), "Plain");
}

#[test]
fn task_printed_with_its_number() {
    let mut printer = MockPrinter::new();
    let t = task(7, "Title", Status::Archived, None, Some("https://x"), None);
    t.print_with_index(4, &mut printer);
    assert_eq!(strip_str(&printer.text), " 4.  -  Title https://x\n");
}

#[test]
fn editing_a_task_of_a_list() {
    let prompter = MockPrompter { next_text_response: "  New  ".to_string() };
    let mut printer = MockPrinter::new();
    let mut items = vec![
        task(1, "Old", Status::Todo, None, Some("https://x"), None),
        task(2, "Other", Status::Done, None, None, None),
    ];
    Actions::edit(&mut items, 1, &prompter, &mut printer);
    assert_eq!(items[0].title, "New");
    assert_eq!(items[0].link, Some("New".to_string()));
    assert_eq!(printer.text, "Updated task: New\nUpdated task: New\n");
    Actions::edit(&mut items, 9, &prompter, &mut printer);
    assert_eq!(printer.warnings, "⚠️ No task found with id 9\n");

    let mut printer = MockPrinter::new();
    let link_prompter = MockPrompter { next_text_response: " https://new ".to_string() };
    Actions::edit_link(&mut items, 2, &link_prompter, &mut printer);
    assert_eq!(items[1].link, Some("https://new".to_string()));
    assert_eq!(printer.text, "Updated task: https://new\n");
    Actions::edit_link(&mut items, 2, &link_prompter, &mut printer);
    assert_eq!(printer.text, "Updated task: https://new\nNo changes made\n");
    let blank = MockPrompter { next_text_response: "   ".to_string() };
    Actions::edit_link(&mut items, 2, &blank, &mut printer);
    assert_eq!(items[1].link, Some("https://new".to_string()));
    let mut printer = MockPrinter::new();
    Actions::edit_link(&mut items, 7, &blank, &mut printer);
    assert_eq!(printer.warnings, "⚠️ No task found with id 7\n");
    assert_eq!(printer.text, "");
}

#[test]
fn archive_listing_by_date() {
    let items = vec![
        task(1, "A", Status::Archived, Some(d(2024, 3, 5)), None, None),
        task(2, "B", Status::Todo, Some(d(2024, 3, 1)), None, None),
        task(3, "C", Status::Archived, Some(d(2024, 3, 4)), Some("https://c"), None),
        task(4, "D", Status::Archived, Some(d(2024, 3, 5)), None, Some(true)),
        task(5, "E", Status::Archived, None, None, None),
        task(6, "F", Status::Archived, Some(d(1970, 1, 1)), None, None),
    ];
    let lines: Vec<String> = Actions::archived(&items).iter().map(|l| strip_str(l)).collect();
    assert_eq!(
        lines,
        vec!["\n 1970-01-01", "    -  F", "\n 2024-03-04", "    -  C https://c", "\n 2024-03-05", "    -  A", "  ★ -  D"]
    );
    assert!(Actions::archived(&Vec::new()).is_empty());
}

#[test]
fn session_menu_and_header() {
    let menu = session_menu();
    assert_eq!(menu.len(), 13);
    assert_eq!(menu[0], "quit");
    assert_eq!(menu[8], "copy-checked");
    assert_eq!(menu[12], "list-archived");
    assert_eq!(session_command("copy-date"), SessionCommand::CopyDate);
    assert_eq!(session_command("check"), SessionCommand::Check);
    assert_eq!(session_command("open"), SessionCommand::Unknown);
    let header: Vec<String> = session_header(&sample()).iter().map(|l| strip_str(l)).collect();
    let rule = "-".repeat(41);
    assert_eq!(header[0], rule);
    assert_eq!(header[1], " 1.  ☐  Alpha");
    assert_eq!(header[3], " 3.  ✔  Charlie");
    assert_eq!(header[4], rule);
    let empty: Vec<String> = session_header(&Vec::new()).iter().map(|l| strip_str(l)).collect();
    assert_eq!(empty, vec![rule.clone(), "No tasks".to_string(), rule]);
}

#[test]
fn session_commands_on_a_list() {
    let mut items = sample();
    let mut printer = MockPrinter::new();
    let mut copier = MockCopier::new();
    let prompter = MockPrompter { next_text_response: "2024-03-04".to_string() };
    assert!(!Actions::session_step(&mut items, SessionCommand::Quit, &prompter, &mut printer, &mut copier).unwrap());
    assert!(Actions::session_step(&mut items, SessionCommand::CopyDate, &prompter, &mut printer, &mut copier).unwrap());
    assert_eq!(copier.text, "Charlie");
    assert_eq!(printer.text, "Copied text for tasks: 3\n");
    printer.clear();
    Actions::session_step(&mut items, SessionCommand::CopyChecked, &prompter, &mut printer, &mut copier).unwrap();
    assert_eq!(copier.text, "Bravo https://b\nCharlie");
    assert_eq!(printer.text, "Copied text for tasks: 2, 3\n");
    printer.clear();
    Actions::session_step(&mut items, SessionCommand::Check, &prompter, &mut printer, &mut copier).unwrap();
    Actions::session_step(&mut items, SessionCommand::Delete, &prompter, &mut printer, &mut copier).unwrap();
    Actions::session_step(&mut items, SessionCommand::Star, &prompter, &mut printer, &mut copier).unwrap();
    assert_eq!(items.len(), 3);
    assert_eq!(printer.text, "No tasks selected\n");
    printer.clear();
    Actions::session_step(&mut items, SessionCommand::Unknown, &prompter, &mut printer, &mut copier).unwrap();
    assert_eq!(printer.text, "Unknown command\n");
    printer.clear();
    let adder = MockPrompter { next_text_response: "Delta".to_string() };
    Actions::session_step(&mut items, SessionCommand::Add, &adder, &mut printer, &mut copier).unwrap();
    assert_eq!(items.len(), 4);
    assert_eq!(items[3].id, 4);
    assert_eq!(items[3].title, "Delta");
    assert_eq!(items[3].link, Some("Delta".to_string()));
    assert_eq!(printer.text, "Added task: Delta\n");
    printer.clear();
    let blank = MockPrompter { next_text_response: String::new() };
    Actions::session_step(&mut items, SessionCommand::Add, &blank, &mut printer, &mut copier).unwrap();
    assert_eq!(items.len(), 4);
    assert_eq!(printer.text, "The title of the task cannot be empty.\n");
    printer.clear();
    Actions::session_step(&mut items, SessionCommand::Clear, &prompter, &mut printer, &mut copier).unwrap();
    assert_eq!(printer.text, "Archived completed tasks\n");
    let statuses: Vec<Status> = items.iter().map(|t| t.status).collect();
    assert_eq!(statuses, vec![Status::Todo, Status::Todo, Status::Archived, Status::Todo, Status::Archived]);
    assert_eq!(items[4].id, 5);
    assert_eq!(items[4].title, "Bravo");
    printer.clear();
    Actions::session_step(&mut items, SessionCommand::ListArchived, &prompter, &mut printer, &mut copier).unwrap();
    assert_eq!(strip_str(&printer.text), "\n 2024-03-04\n    -  Charlie\n\n 2024-03-05\n    -  Bravo https://b\n");
}

#[test]
fn configured_paths_under_home() {
    assert!(matches!(home_relative("~"), HomePath::Home));
    match home_relative("~/notes/fini") {
        HomePath::UnderHome(rest) => assert_eq!(rest, "notes/fini"),
        other => panic!("unexpected {:?}", other),
    }
    match home_relative("~/") {
        HomePath::UnderHome(rest) => assert_eq!(rest, ""),
        other => panic!("unexpected {:?}", other),
    }
    assert!(matches!(home_relative("~user/x"), HomePath::AsWritten));
    assert!(matches!(home_relative("/var/fini"), HomePath::AsWritten));
    assert!(matches!(home_relative(""), HomePath::AsWritten));
}

#[test]
fn deleting_what_was_added_gives_back_the_list() {
    let mut items = sample();
    let (id, _) = Actions::add(&mut items, "Extra".to_string());
    assert_eq!(id, 4);
    let back = Actions::delete(items, &vec![id]);
    let titles: Vec<&str> = back.iter().map(|t| t.title.as_str()).collect();
    assert_eq!(titles, vec!["Alpha", "Bravo", "Charlie"]);
    let ids: Vec<usize> = back.iter().map(|t| t.id).collect();
    assert_eq!(ids, vec![1, 2, 3]);
}

#[test]
fn short_titles_read_back_where_the_files_keep_them() {
    let items = vec![
        task(1, "x", Status::Todo, None, None, Some(true)),
        task(2, "y", Status::Done, None, Some("https://y"), None),
        task(3, "z", Status::Todo, None, None, None),
    ];
    let back = parse_markdown_tasks(&tasks_as_markdown(items), 1).unwrap();
    let titles: Vec<&str> = back.iter().map(|t| t.title.as_str()).collect();
    assert_eq!(titles, vec!["x", "z", "y"]);
    assert_eq!(back[0].star, Some(true));
    assert_eq!(back[2].link, Some("https://y".to_string()));
    let archived = vec![
        task(4, "a", Status::Archived, Some(d(2024, 1, 2)), None, None),
        task(5, "- b", Status::Archived, Some(d(2024, 1, 2)), Some("https://b"), None),
    ];
    let back = parse_markdown_archive_with_start_id(&archived_tasks_as_markdown(archived, LinkFormat::Markdown), 100000).unwrap();
    let titles: Vec<&str> = back.iter().map(|t| t.title.as_str()).collect();
    assert_eq!(titles, vec!["a", "- b"]);
}

#[test]
fn titles_with_spaces_and_brackets_read_back() {
    let items = vec![
        task(1, " spaced ", Status::Todo, None, Some("https://s"), None),
        task(2, " lead", Status::Todo, None, None, Some(true)),
        task(3, "a [b] c", Status::Todo, None, None, None),
        task(4, "x [y", Status::Todo, None, Some("https://x"), None),
    ];
    let back = parse_markdown_tasks(&tasks_as_markdown(items), 1).unwrap();
    let titles: Vec<&str> = back.iter().map(|t| t.title.as_str()).collect();
    assert_eq!(titles, vec![" lead", " spaced ", "a [b] c", "x [y"]);
    let archived = vec![task(5, " lead", Status::Archived, Some(d(2024, 1, 2)), None, None)];
    let back = parse_markdown_archive_with_start_id(&archived_tasks_as_markdown(archived, LinkFormat::Markdown), 100000).unwrap();
    assert_eq!(back[0].title, " lead");
}

#[test]
fn dates_outside_four_digit_years() {
    assert_eq!(date_text(d(10000, 1, 1)), "+10000-01-01");
    assert_eq!(date_text(d(-1, 12, 31)), "-0001-12-31");
    assert_eq!(parse_date("+10000-01-01").unwrap(), d(10000, 1, 1));
    assert_eq!(parse_date("-0001-12-31").unwrap(), d(-1, 12, 31));
    let items = vec![
        task(1, "Far", Status::Done, Some(d(10000, 1, 1)), None, None),
        task(2, "Early", Status::Done, Some(d(-1, 12, 31)), None, None),
    ];
    let text = tasks_as_markdown(items);
    assert_eq!(text, "## Active Tasks\n\n## -0001-12-31\n- [x] Early\n\n## +10000-01-01\n- [x] Far");
    let back = parse_markdown_tasks(&text, 1).unwrap();
    assert_eq!(back[0].active_date, Some(d(-1, 12, 31)));
    assert_eq!(back[1].active_date, Some(d(10000, 1, 1)));
}

#[test]
fn warnings_go_apart_from_the_output() {
    let mut storage = InMemoryStorage::new();
    let mut printer = MockPrinter::new();
    let mut copier = MockCopier::new();
    let prompter = MockPrompter::new();
    run(&mut storage, &mut printer, &mut copier, &prompter, Command::Add { title: Some("One".to_string()), link: None }).unwrap();
    printer.clear();
    run(&mut storage, &mut printer, &mut copier, &prompter, Command::Begin { ids: Some(vec![1, 7]) }).unwrap();
    assert_eq!(printer.text, "Started task: One\n");
    assert_eq!(printer.warnings, "⚠️ No task found with id 7\n");
    assert_eq!(storage.read_tasks().unwrap()[0].status, Status::Todo);
    run(&mut storage, &mut printer, &mut copier, &prompter, Command::Archive { ids: Some(vec![9]) }).unwrap();
    assert_eq!(printer.warnings, "⚠️ No task found with id 7\n⚠️ No task found with id 9\n");
    let blank = MockPrompter { next_text_response: "  ".to_string() };
    run(&mut storage, &mut printer, &mut copier, &blank, Command::Edit { id: Some(1) }).unwrap();
    assert!(printer.warnings.ends_with("⚠️ Title cannot be empty\n"));
    let mut items = sample();
    let mut printer = MockPrinter::new();
    Actions::edit_link(&mut items, 1, &blank, &mut printer);
    assert_eq!(printer.warnings, "⚠️ link cannot be empty\n");
    assert_eq!(printer.text, "");
}

#[test]
fn defaults_and_payload_texts() {
    let storage = InMemoryStorage::default();
    assert_eq!(storage.active_board(), "tasks");
    assert!(storage.read_tasks().unwrap().is_empty());
    let prompter = MockPrompter::default();
    assert_eq!(prompter.next_text_response, "");
    let copier = MockCopier::default();
    assert_eq!(copier.text, "");
    assert_eq!(TextPayload("plain".to_string()).to_string(), "plain");
    let html = HtmlPayload { html: "<a>x</a>".to_string(), alt: "x".to_string() };
    assert_eq!(html.to_string(), "x");
}

#[test]
fn a_task_shows_its_title() {
    let items = sample();
    assert_eq!(items[1].to_string(), "Bravo");
    assert_eq!(items[1].get_copy_text(), "Bravo https://b");
}

#[test]
fn copying_the_archive_as_markdown() {
    let mut storage = InMemoryStorage::new();
    let mut printer = MockPrinter::new();
    let mut copier = MockCopier::new();
    let prompter = MockPrompter::new();
    run(&mut storage, &mut printer, &mut copier, &prompter, Command::Add { title: Some("Done one".to_string()), link: Some("https://d".to_string()) }).unwrap();
    run(&mut storage, &mut printer, &mut copier, &prompter, Command::Check { ids: Some(vec![1]) }).unwrap();
    run(&mut storage, &mut printer, &mut copier, &prompter, Command::Clear).unwrap();
    printer.clear();
    copy_archived(&storage, &mut copier, &mut printer).unwrap();
    let expected = archived_tasks_as_markdown(storage.read_archived().unwrap(), LinkFormat::Markdown);
    assert_eq!(copier.text, expected);
    assert!(copier.text.ends_with("- [Done one](https://d)"));
    assert_eq!(printer.text, "Copied archived tasks as Markdown\n");
}

#[test]
fn copying_with_markdown_links() {
    let mut storage = InMemoryStorage::new();
    let mut printer = MockPrinter::new();
    let mut copier = MockCopier::new();
    let prompter = MockPrompter::new();
    run(&mut storage, &mut printer, &mut copier, &prompter, Command::Add { title: Some("Linked".to_string()), link: Some("https://l".to_string()) }).unwrap();
    run(&mut storage, &mut printer, &mut copier, &prompter, Command::Add { title: Some("Plain".to_string()), link: None }).unwrap();
    printer.clear();
    copy_with_markdown_links(&storage, &mut copier, &mut printer, &vec![1]).unwrap();
    assert_eq!(copier.text, "[Linked](https://l)");
    assert_eq!(printer.text, "Copied text for task: [Linked](https://l)\n");
    printer.clear();
    copy_with_markdown_links(&storage, &mut copier, &mut printer, &vec![2, 1]).unwrap();
    assert_eq!(copier.text, "[Linked](https://l)\nPlain");
    assert_eq!(printer.text, "Copied text for selected tasks\n");
    printer.clear();
    copy_with_markdown_links(&storage, &mut copier, &mut printer, &vec![9]).unwrap();
    assert_eq!(printer.text, "No tasks to copy\n");
}

#[test]
fn one_letter_titles_are_tasks() {
    let r = parse_markdown_tasks("## Active Tasks\n- [ ] a\n- [x] Go", 1).unwrap();
    assert_eq!(r.len(), 2);
    assert_eq!(r[0].title, "a");
    assert_eq!(r[0].status, Status::Todo);
    assert_eq!(r[1].title, "Go");
    assert_eq!(r[1].status, Status::Done);
}

#[test]
fn one_letter_title_survives_a_write() {
    let mut storage = InMemoryStorage::new();
    let mut printer = MockPrinter::new();
    let mut copier = MockCopier::new();
    let prompter = MockPrompter::new();
    run(&mut storage, &mut printer, &mut copier, &prompter, Command::Add { title: Some("a".to_string()), link: None }).unwrap();
    let tasks = storage.read_tasks().unwrap();
    assert_eq!(tasks.len(), 1);
    assert_eq!(tasks[0].title, "a");
}

#[test]
fn archive_dated_on_the_epoch_keeps_its_header() {
    let items = vec![task(1, "Old", Status::Archived, Some(d(1970, 1, 1)), None, None)];
    let text = archived_tasks_as_markdown(items, LinkFormat::Markdown);
    assert_eq!(text, "\n## 1970-01-01\n- Old");
    let back = parse_markdown_archive_with_start_id(&text, 100000).unwrap();
    assert_eq!(back.len(), 1);
    assert_eq!(back[0].title, "Old");
    assert_eq!(back[0].active_date, Some(d(1970, 1, 1)));
}

#[test]
fn interactive_menu_offers_boards() {
    let menu = interactive_menu();
    assert!(menu.iter().any(|e| e == "boards"));
    assert!(matches!(interactive_command("boards"), InteractiveStep::Run(Command::Use { name: None })));
}

#[test]
fn empty_given_title_is_refused_without_touching_the_store() {
    let mut storage = InMemoryStorage::new();
    let mut printer = MockPrinter::new();
    let mut copier = MockCopier::new();
    let prompter = MockPrompter::new();
    let r = run(&mut storage, &mut printer, &mut copier, &prompter, Command::Add { title: Some(String::new()), link: None });
    assert!(r.is_ok());
    assert_eq!(printer.text, "The title of the task cannot be empty.\n");
    assert_eq!(storage.read_tasks().unwrap().len(), 0);
}

#[test]
fn prompted_title_and_link_are_used() {
    let mut storage = InMemoryStorage::new();
    let mut printer = MockPrinter::new();
    let mut copier = MockCopier::new();
    let prompter = MockPrompter { next_text_response: "Asked".to_string() };
    run(&mut storage, &mut printer, &mut copier, &prompter, Command::Add { title: None, link: None }).unwrap();
    let tasks = storage.read_tasks().unwrap();
    assert_eq!(tasks.len(), 1);
    assert_eq!(tasks[0].title, "Asked");
    assert_eq!(tasks[0].link, Some("Asked".to_string()));
}

#[test]
fn commands_succeed_on_the_store_in_memory() {
    let mut storage = InMemoryStorage::new();
    let mut printer = MockPrinter::new();
    let mut copier = MockCopier::new();
    let prompter = MockPrompter::new();
    let commands = vec![
        Command::Add { title: Some("One".to_string()), link: None },
        Command::Check { ids: Some(vec![1]) },
        Command::Begin { ids: None },
        Command::Star { ids: Some(vec![1]) },
        Command::List { format: LinkFormat::NoLink },
        Command::Archived,
        Command::Edit { id: Some(1) },
        Command::Clear,
        Command::Delete { ids: Some(vec![1]) },
        Command::Boards,
        Command::BoardPath,
        Command::Use { name: Some("work".to_string()) },
        Command::Archive { ids: None },
    ];
    for c in commands {
        assert!(run(&mut storage, &mut printer, &mut copier, &prompter, c).is_ok());
    }
    assert_eq!(storage.active_board(), "work");
}

#[test]
fn switching_boards_in_memory_reads_and_lists() {
    let mut storage = InMemoryStorage::new();
    storage.switch_board("work").unwrap();
    assert_eq!(storage.read_tasks().unwrap().len(), 0);
    assert_eq!(storage.read_archived().unwrap().len(), 0);
    assert_eq!(storage.list_boards().unwrap(), vec!["tasks".to_string(), "work".to_string()]);
}

#[test]
fn editing_a_missing_task_fails_and_changes_nothing() {
    let mut storage = InMemoryStorage::new();
    let mut printer = MockPrinter::new();
    let prompter = MockPrompter::new();
    let r = fini::util::edit_task(&mut storage, &prompter, &mut printer, 7);
    assert!(matches!(r, Err(FiniError::NoTaskToEdit)));
    assert_eq!(printer.text, "");
    assert_eq!(storage.read_tasks().unwrap().len(), 0);
}

#[test]
fn written_archive_reads_back_as_filed_tasks() {
    let mut storage = InMemoryStorage::new();
    let items = vec![
        task(7, "Late", Status::Done, Some(d(2024, 5, 2)), None, Some(true)),
        task(3, "Early", Status::InProgress, Some(d(2024, 5, 1)), Some("https://e"), None),
    ];
    storage.write_archived(items).unwrap();
    let back = storage.read_archived().unwrap();
    assert_eq!(back.len(), 2);
    assert_eq!(back[0].title, "Early");
    assert_eq!(back[0].link, Some("https://e".to_string()));
    assert_eq!(back[1].title, "Late");
    assert!(back.iter().all(|t| t.status == Status::Archived && t.star.is_none()));
    assert_eq!(back[0].id, 100000);
    assert_eq!(back[1].id, 100001);
}

#[test]
fn read_order_puts_unfinished_and_starred_first() {
    let text = "## Active Tasks\n- [x] Done one\n- [ ] Plain\n- [ ] ⭐️ Starred\n- [~] Going";
    let back = parse_markdown_tasks(text, 1).unwrap();
    let titles: Vec<&str> = back.iter().map(|t| t.title.as_str()).collect();
    assert_eq!(titles, vec!["Starred", "Plain", "Going", "Done one"]);
    let mut ids: Vec<usize> = back.iter().map(|t| t.id).collect();
    ids.sort();
    assert_eq!(ids, vec![1, 2, 3, 4]);
}

struct DecliningPrompter;

impl Prompter for DecliningPrompter {
    fn text(&self, _message: &str) -> Result<String, FiniError> {
        Err(FiniError::Prompt("no terminal".to_string()))
    }
    fn text_with_initial(&self, _message: &str, _initial: &str) -> Result<String, FiniError> {
        Err(FiniError::Prompt("no terminal".to_string()))
    }
    fn confirm(&self, _message: &str) -> Result<bool, FiniError> {
        Ok(false)
    }
    fn select_one(&self, _message: &str, _options: &Vec<String>) -> Result<Option<usize>, FiniError> {
        Ok(None)
    }
    fn select_many(&self, _message: &str, _options: &Vec<String>) -> Result<Vec<usize>, FiniError> {
        Ok(Vec::new())
    }
    fn select_date(&self, _message: &str) -> Result<String, FiniError> {
        Err(FiniError::Prompt("no terminal".to_string()))
    }
}

#[test]
fn declined_clear_and_delete_change_nothing() {
    let mut storage = InMemoryStorage::new();
    let mut printer = MockPrinter::new();
    let mut copier = MockCopier::new();
    let yes = MockPrompter::new();
    run(&mut storage, &mut printer, &mut copier, &yes, Command::Add { title: Some("One".to_string()), link: None }).unwrap();
    run(&mut storage, &mut printer, &mut copier, &yes, Command::Check { ids: Some(vec![1]) }).unwrap();
    let before = tasks_as_markdown(storage.read_tasks().unwrap());
    let no = DecliningPrompter;
    let mut printer = MockPrinter::new();
    assert!(execute_command(&mut storage, &no, &mut copier, &mut printer, Command::Clear).is_ok());
    assert!(execute_command(&mut storage, &no, &mut copier, &mut printer, Command::Delete { ids: Some(vec![1]) }).is_ok());
    assert_eq!(tasks_as_markdown(storage.read_tasks().unwrap()), before);
    assert_eq!(storage.read_archived().unwrap().len(), 0);
    assert_eq!(printer.text, "Tasks to be deleted:\n  - One\n\n");
}

#[test]
fn a_failed_edit_question_warns() {
    let mut items = sample();
    let mut printer = MockPrinter::new();
    Actions::edit(&mut items, 1, &DecliningPrompter, &mut printer);
    assert_eq!(items[0].title, "Alpha");
    assert_eq!(printer.warnings, "⚠️ Error editing task: no terminal\n");
    Actions::edit_link(&mut items, 2, &DecliningPrompter, &mut printer);
    assert_eq!(items[1].link, Some("https://b".to_string()));
    assert_eq!(printer.warnings, "⚠️ Error editing task: no terminal\n⚠️ Error editing task: no terminal\n");
}

#[test]
fn add_with_a_failed_title_question_fails_with_it() {
    let mut storage = InMemoryStorage::new();
    let mut printer = MockPrinter::new();
    let mut copier = MockCopier::new();
    let r = execute_command(&mut storage, &DecliningPrompter, &mut copier, &mut printer, Command::Add { title: None, link: None });
    assert!(matches!(r, Err(FiniError::Prompt(_))));
    assert_eq!(storage.read_tasks().unwrap().len(), 0);
}

#[test]
fn open_without_a_link_opens_nothing() {
    let mut storage = InMemoryStorage::new();
    let mut printer = MockPrinter::new();
    let mut copier = MockCopier::new();
    let prompter = MockPrompter::new();
    run(&mut storage, &mut printer, &mut copier, &prompter, Command::Add { title: Some("One".to_string()), link: None }).unwrap();
    let mut printer = MockPrinter::new();
    let r = execute_command(&mut storage, &prompter, &mut copier, &mut printer, Command::Open { id: Some(1) });
    assert_eq!(r.unwrap(), None);
    assert_eq!(printer.text, "That task does not have a link\n");
    let r = execute_command(&mut storage, &prompter, &mut copier, &mut printer, Command::Open { id: None });
    assert_eq!(r.unwrap(), None);
    assert!(printer.text.ends_with("No task selected\n"));
    let r = execute_command(&mut storage, &prompter, &mut copier, &mut printer, Command::Open { id: Some(5) });
    assert!(matches!(r, Err(FiniError::TaskNotFound)));
}

#[test]
fn readers_take_large_starting_ids() {
    let start = usize::MAX - 100;
    let text = format!("## Active Tasks\n- [ ] {}\n- [x] {}", "a".repeat(90), "b".repeat(90));
    assert!(text.chars().count() > 100);
    let r = parse_markdown_tasks(&text, start).unwrap();
    assert_eq!(r.len(), 2);
    let mut ids: Vec<usize> = r.iter().map(|t| t.id).collect();
    ids.sort();
    assert_eq!(ids, vec![start, start + 1]);
    let archive = format!("## 2024-01-02\n- {}\n- {}", "c".repeat(90), "d".repeat(90));
    let r = parse_markdown_archive_with_start_id(&archive, start).unwrap();
    assert_eq!(r.len(), 2);
    assert_eq!(r[1].id, start + 1);
}

#[test]
fn use_makes_the_board_one_of_the_listed() {
    let mut storage = InMemoryStorage::new();
    let mut printer = MockPrinter::new();
    let mut copier = MockCopier::new();
    let r = execute_command(&mut storage, &DecliningPrompter, &mut copier, &mut printer, Command::Use { name: Some(" work ".to_string()) });
    assert!(r.is_ok());
    assert_eq!(storage.active_board(), "work");
    assert!(storage.list_boards().unwrap().contains(&"work".to_string()));
    assert_eq!(printer.text, "Switched to board 'work'.\n");
    let r = execute_command(&mut storage, &DecliningPrompter, &mut copier, &mut printer, Command::Boards);
    assert!(r.is_ok());
    assert!(printer.text.ends_with("  tasks\n* work\n"));
}
