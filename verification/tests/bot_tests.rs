use diary_app_lib::bot::{
    cache_failed_text, greeting, handle_message, help_text, parse_bot_command, sync_started_text,
    BotCommand, BotPlan, OutputBuffer,
};

#[test]
fn commands_from_messages() {
    assert_eq!(parse_bot_command(":s walk"), BotCommand::Search("walk".to_string()));
    assert_eq!(parse_bot_command(":SEARCH  2011-05-23 "), BotCommand::Search("2011-05-23".to_string()));
    assert_eq!(parse_bot_command(":h"), BotCommand::Help);
    assert_eq!(parse_bot_command(":help me"), BotCommand::Help);
    assert_eq!(parse_bot_command(":sync"), BotCommand::Sync);
    assert_eq!(parse_bot_command(":n"), BotCommand::Next);
    assert_eq!(parse_bot_command(":Next"), BotCommand::Next);
    assert_eq!(parse_bot_command(":i bought milk"), BotCommand::Insert("bought milk".to_string()));
    assert_eq!(parse_bot_command("bought milk"), BotCommand::Insert("bought milk".to_string()));
    assert_eq!(parse_bot_command("   "), BotCommand::Insert("   ".to_string()));
    assert_eq!(parse_bot_command(":s:s twice"), BotCommand::Insert(":s:s twice".to_string()));
}

#[test]
fn command_word_is_stripped_from_the_start_only() {
    assert_eq!(parse_bot_command(":s :s x"), BotCommand::Search(":s x".to_string()));
    assert_eq!(parse_bot_command("  :s x"), BotCommand::Search(":s x".to_string()));
}

#[test]
fn search_results_are_handed_out_in_order() {
    let mut buf = OutputBuffer::new();
    assert_eq!(buf.next_reply(), "...");
    buf.set_search_results(&vec!["first".to_string(), "second".to_string(), "third".to_string()]);
    assert_eq!(buf.next_reply(), "first");
    assert_eq!(buf.next_reply(), "second");
    assert_eq!(buf.next_reply(), "third");
    assert_eq!(buf.next_reply(), "...");
    assert_eq!(buf.next_reply(), "...");
}

#[test]
fn new_results_replace_pending_pages() {
    let mut buf = OutputBuffer::new();
    buf.set_search_results(&vec!["a".to_string(), "b".to_string()]);
    assert_eq!(buf.next_reply(), "a");
    buf.set_sync_output(&vec!["ssh cache x".to_string(), "update 2011-05-23".to_string()]);
    assert_eq!(buf.next_reply(), "ssh cache x\nupdate 2011-05-23");
    assert_eq!(buf.next_reply(), "...");
    buf.set_search_results(&vec![]);
    assert_eq!(buf.next_reply(), "...");
}

#[test]
fn fixed_replies() {
    assert!(help_text().starts_with(":s, :search => search for text"));
    assert_eq!(help_text().lines().count(), 4);
    assert_eq!(sync_started_text(), "started sync, reply with :n to see result");
    assert_eq!(cache_failed_text(), "failed to cache entry");
    assert_eq!(greeting("Ann", -7, "hi"), "Hi, Ann, user_id -7! You just wrote 'hi'");
}

#[test]
fn strangers_are_greeted() {
    assert_eq!(handle_message(false, "Bob", 42, ":s x"), BotPlan::Greet("Hi, Bob, user_id 42! You just wrote ':s x'".to_string()));
    assert_eq!(handle_message(true, "Bob", 42, ":s x"), BotPlan::Run(BotCommand::Search("x".to_string())));
}
