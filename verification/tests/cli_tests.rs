use bftp::cli::{handle_command_line_args, handle_config_command, shell_split};
use bftp::commands::{confirms, item_name, item_path, plan_command, resolve_local_dest, Command, Usage};
use bftp::completion::complete_command;
use bftp::config::Config;

fn words(line: &str) -> Vec<String> {
    shell_split(line)
}

fn plan(line: &str) -> Command {
    plan_command(&words(line), "/r/cur", "/l/home")
}

fn args(list: &[&str]) -> Vec<String> {
    list.iter().map(|s| s.to_string()).collect()
}

fn sample_config() -> Config {
    let mut c = Config::default();
    c.client_id = "cid".to_string();
    c.add_user("alice", Some("tok".to_string()));
    c.add_user("bob", None);
    c.set_default_user("alice");
    c
}

#[test]
fn split_plain_and_quoted_words() {
    assert_eq!(words("a b  c"), args(&["a", "b", "c"]));
    assert_eq!(words("'a b' \"c d\""), args(&["a b", "c d"]));
    assert_eq!(words("a\\ b"), args(&["a b"]));
    assert_eq!(words("\"x\\\"y\""), args(&["x\"y"]));
    assert_eq!(words("''"), Vec::<String>::new());
    assert_eq!(words("a\"\"b"), args(&["ab"]));
    assert_eq!(words("a\\"), args(&["a"]));
    assert_eq!(words("\tput\tx "), args(&["put", "x"]));
    assert_eq!(words("'it''s'"), args(&["its"]));
}

#[test]
fn split_words_are_never_empty() {
    for line in ["", " ", "a  b", "'' x \"\"", "\\ ", "'a"] {
        for w in words(line) {
            assert!(!w.is_empty(), "line {:?}", line);
        }
    }
}

#[test]
fn plan_simple_commands() {
    assert!(matches!(plan("help"), Command::Help));
    assert!(matches!(plan("pwd"), Command::Pwd));
    assert!(matches!(plan("bye"), Command::Exit));
    assert!(matches!(plan("quit"), Command::Exit));
    assert!(matches!(plan("lls -la"), Command::Lls { show_all: true }));
    assert!(matches!(plan("lls"), Command::Lls { show_all: false }));
    match plan("frobnicate x") {
        Command::Unknown { command } => assert_eq!(command, "frobnicate"),
        _ => panic!("expected unknown"),
    }
}

#[test]
fn plan_directory_changes() {
    match plan("cd ..") {
        Command::Cd { path } => assert_eq!(path, "/r"),
        _ => panic!(),
    }
    match plan("cd my dir") {
        Command::Cd { path } => assert_eq!(path, "/r/cur/my dir"),
        _ => panic!(),
    }
    match plan("lcd sub") {
        Command::Lcd { path } => assert_eq!(path, "/l/home/sub"),
        _ => panic!(),
    }
    assert!(matches!(plan("cd"), Command::Usage { which: Usage::Cd }));
    match plan("mkdir new") {
        Command::Mkdir { path } => assert_eq!(path, "/r/cur/new"),
        _ => panic!(),
    }
    match plan("lmkdir x/y") {
        Command::Lmkdir { path } => assert_eq!(path, "/l/home/x/y"),
        _ => panic!(),
    }
}

#[test]
fn plan_searches() {
    match plan("search hello world -r /docs") {
        Command::Search { key, dir, recursion } => {
            assert_eq!(key, "hello world");
            assert_eq!(dir, Some("/docs".to_string()));
            assert!(recursion);
        }
        _ => panic!(),
    }
    assert!(matches!(plan("search -r /x"), Command::Usage { which: Usage::Search }));
    match plan("semsearch cats -t 2") {
        Command::SemSearch { query, search_type, dir } => {
            assert_eq!(query, "cats");
            assert_eq!(search_type, 2);
            assert_eq!(dir, None);
        }
        _ => panic!(),
    }
    match plan("semsearch big cats -t x /pics") {
        Command::SemSearch { query, search_type, dir } => {
            assert_eq!(query, "big cats");
            assert_eq!(search_type, 1);
            assert_eq!(dir, Some("/pics".to_string()));
        }
        _ => panic!(),
    }
    match plan("semsearch dogs -t") {
        Command::SemSearch { query, search_type, .. } => {
            assert_eq!(query, "dogs");
            assert_eq!(search_type, 1);
        }
        _ => panic!(),
    }
}

#[test]
fn plan_moves_and_copies() {
    match plan("mv a.txt b.txt") {
        Command::Move { src, dest_dir, newname, same_dir } => {
            assert_eq!(src, "/r/cur/a.txt");
            assert_eq!(dest_dir, "/r/cur");
            assert_eq!(newname, "b.txt");
            assert!(same_dir);
        }
        _ => panic!(),
    }
    match plan("mv a.txt /other/") {
        Command::Move { dest_dir, newname, same_dir, .. } => {
            assert_eq!(dest_dir, "/other");
            assert_eq!(newname, "a.txt");
            assert!(!same_dir);
        }
        _ => panic!(),
    }
    match plan("cp a.txt ../b") {
        Command::Copy { src, dest_dir, newname } => {
            assert_eq!(src, "/r/cur/a.txt");
            assert_eq!(dest_dir, "/r");
            assert_eq!(newname, "b");
        }
        _ => panic!(),
    }
    assert!(matches!(plan("cp a"), Command::Usage { which: Usage::Cp }));
    match plan("rename a b") {
        Command::Rename { path, newname } => {
            assert_eq!(path, "/r/cur/a");
            assert_eq!(newname, "b");
        }
        _ => panic!(),
    }
}

#[test]
fn plan_removals() {
    match plan("rm *.txt") {
        Command::RemoveMatching { dir, pattern } => {
            assert_eq!(dir, "/r/cur");
            assert_eq!(pattern, "*.txt");
        }
        _ => panic!(),
    }
    match plan("rm old") {
        Command::Remove { path } => assert_eq!(path, "/r/cur/old"),
        _ => panic!(),
    }
    match plan("lrm tmp/*.o") {
        Command::LocalRemoveMatching { dir, pattern } => {
            assert_eq!(dir, "/l/home/tmp/");
            assert_eq!(pattern, "*.o");
        }
        _ => panic!(),
    }
    match plan("lrm junk") {
        Command::LocalRemove { path } => assert_eq!(path, "/l/home/junk"),
        _ => panic!(),
    }
}

#[test]
fn plan_local_transfers() {
    match plan("lcp a.txt backup/") {
        Command::LocalCopy { src, dest } => {
            assert_eq!(src, "/l/home/a.txt");
            assert_eq!(dest, "/l/home/backup//a.txt");
        }
        _ => panic!(),
    }
    match plan("lmv a.txt b.txt") {
        Command::LocalMove { src, dest } => {
            assert_eq!(src, "/l/home/a.txt");
            assert_eq!(dest, "/l/home/b.txt");
        }
        _ => panic!(),
    }
    match plan("lcp *.c /dst") {
        Command::LocalCopyMatching { dir, pattern, dest_dir } => {
            assert_eq!(dir, "/l/home");
            assert_eq!(pattern, "*.c");
            assert_eq!(dest_dir, "/dst");
        }
        _ => panic!(),
    }
    assert!(matches!(plan("lmv x"), Command::Usage { which: Usage::Lmv }));
    assert_eq!(resolve_local_dest("/h", "/h/f.txt", "/d/"), "/d//f.txt");
    assert_eq!(resolve_local_dest("/h", "/h/f.txt", "g"), "/h/g");
}

#[test]
fn plan_uploads() {
    match plan("put a.txt") {
        Command::Put { local_path, remote_name } => {
            assert_eq!(local_path, "/l/home/a.txt");
            assert_eq!(remote_name, None);
        }
        _ => panic!(),
    }
    match plan("put a.txt b.txt") {
        Command::Put { remote_name, .. } => assert_eq!(remote_name, Some("b.txt".to_string())),
        _ => panic!(),
    }
    match plan("put *.txt") {
        Command::PutMatching { dir, pattern } => {
            assert_eq!(dir, "/l/home");
            assert_eq!(pattern, "*.txt");
        }
        _ => panic!(),
    }
    assert!(matches!(plan("put *.txt name"), Command::Usage { which: Usage::PutWildcardName }));
    assert!(matches!(plan("put"), Command::Usage { which: Usage::Put }));
}

#[test]
fn plan_downloads() {
    match plan("get f.bin") {
        Command::GetFile { remote_path, local_path, threads } => {
            assert_eq!(remote_path, "/r/cur/f.bin");
            assert_eq!(local_path, "/l/home/f.bin");
            assert_eq!(threads, None);
        }
        _ => panic!(),
    }
    match plan("get /x/f.bin out.bin") {
        Command::GetFile { remote_path, local_path, .. } => {
            assert_eq!(remote_path, "/x/f.bin");
            assert_eq!(local_path, "/l/home/out.bin");
        }
        _ => panic!(),
    }
    match plan("get -r photos") {
        Command::GetDir { remote_dir, local_dir, threads } => {
            assert_eq!(remote_dir, "/r/cur/photos");
            assert_eq!(local_dir, "/l/home/photos");
            assert_eq!(threads, None);
        }
        _ => panic!(),
    }
    assert!(matches!(plan("get -r"), Command::Usage { which: Usage::GetRecursive }));
    assert!(matches!(plan("get"), Command::Usage { which: Usage::Get }));
    match plan("get *.jpg pics") {
        Command::GetFilesMatching { dir, pattern, local_dir, .. } => {
            assert_eq!(dir, "/r/cur");
            assert_eq!(pattern, "*.jpg");
            assert_eq!(local_dir, "/l/home/pics");
        }
        _ => panic!(),
    }
    match plan("get -r dir*") {
        Command::GetDirsMatching { dir, pattern, local_base, .. } => {
            assert_eq!(dir, "/r/cur");
            assert_eq!(pattern, "dir*");
            assert_eq!(local_base, "/l/home");
        }
        _ => panic!(),
    }
    match plan("get ..") {
        Command::GetFile { remote_path, local_path, .. } => {
            assert_eq!(remote_path, "/r");
            assert_eq!(local_path, "/l/home/r");
        }
        _ => panic!(),
    }
}

#[test]
fn plan_multi_connection_downloads() {
    match plan("mget big.iso") {
        Command::GetFile { threads, .. } => assert_eq!(threads, Some(4)),
        _ => panic!(),
    }
    match plan("mget -t 8 -r data /tmp/data") {
        Command::GetDir { remote_dir, local_dir, threads } => {
            assert_eq!(remote_dir, "/r/cur/data");
            assert_eq!(local_dir, "/tmp/data");
            assert_eq!(threads, Some(8));
        }
        _ => panic!(),
    }
    match plan("mget -t many f") {
        Command::GetFile { threads, .. } => assert_eq!(threads, Some(4)),
        _ => panic!(),
    }
    assert!(matches!(plan("mget -t"), Command::Usage { which: Usage::MgetThreads }));
    assert!(matches!(plan("mget -r"), Command::Usage { which: Usage::Mget }));
    assert!(matches!(plan("mget"), Command::Usage { which: Usage::Mget }));
}

#[test]
fn matched_item_targets() {
    assert_eq!(item_path("/l", "/r/a.txt", "download"), "/l/a.txt");
    assert_eq!(item_path("/l", "/", "download"), "/l/download");
    assert_eq!(item_name("/x/y.txt", "unknown"), "y.txt");
    assert_eq!(item_name("/", "unknown"), "unknown");
}

#[test]
fn delete_confirmation_answers() {
    assert!(confirms("y\n"));
    assert!(confirms("  YES "));
    assert!(confirms("Yes"));
    assert!(!confirms(""));
    assert!(!confirms("n"));
    assert!(!confirms("yeah"));
}

#[test]
fn command_completion() {
    let (word, cands) = complete_command("l");
    assert_eq!(word, "l");
    assert_eq!(cands, args(&["lpwd", "ls", "lls", "lcd", "lmkdir", "lmv", "lcp", "lrm"]));
    let (word, cands) = complete_command("get x m");
    assert_eq!(word, "m");
    assert_eq!(cands, args(&["mkdir", "mget", "mv"]));
    let (word, cands) = complete_command("cd ");
    assert_eq!(word, "");
    assert_eq!(cands.len(), 26);
    let (_, cands) = complete_command("zz");
    assert!(cands.is_empty());
}

#[test]
fn config_show_and_list() {
    let mut c = sample_config();
    let out = handle_config_command(&mut c, &args(&["bftp", "config"]));
    assert!(!out.save);
    assert!(out.err.is_empty());
    assert_eq!(out.out[0], "当前配置:");
    assert_eq!(out.out[1], "  client_id:    cid");
    assert_eq!(out.out[4], "  默认用户:     alice");
    assert_eq!(out.out[5], "  用户列表:");
    assert!(out.out.contains(&"    * alice (已授权)".to_string()));
    assert!(out.out.contains(&"    - bob (未授权)".to_string()));
    assert_eq!(out.out.len(), 8);
    let out = handle_config_command(&mut c, &args(&["bftp", "config", "list-users"]));
    assert_eq!(out.out[0], "用户列表:");
    assert!(out.out.contains(&"  * alice (默认)".to_string()));
    assert!(out.out.contains(&"  - bob".to_string()));
}

#[test]
fn config_changes() {
    let mut c = sample_config();
    let out = handle_config_command(&mut c, &args(&["bftp", "config", "set-default", "bob"]));
    assert!(out.save);
    assert_eq!(out.out, args(&["默认用户已切换为: bob"]));
    assert_eq!(c.default, "bob");
    let out = handle_config_command(&mut c, &args(&["bftp", "config", "set-default", "carol"]));
    assert!(!out.save);
    assert_eq!(out.err, args(&["用户 'carol' 不存在"]));
    assert_eq!(c.default, "bob");
    let out = handle_config_command(&mut c, &args(&["bftp", "config", "add-user", "carol"]));
    assert!(out.save);
    assert_eq!(out.out, args(&["用户 'carol' 已添加"]));
    assert!(c.has_user("carol"));
    let out = handle_config_command(&mut c, &args(&["bftp", "config", "remove-user", "bob"]));
    assert!(out.save);
    assert_eq!(out.out, args(&["用户 'bob' 已删除"]));
    assert!(!c.has_user("bob"));
    assert!(c.has_user(&c.default.clone()));
    let out = handle_config_command(&mut c, &args(&["bftp", "config", "remove-user", "bob"]));
    assert!(!out.save);
    assert_eq!(out.err, args(&["用户 'bob' 不存在"]));
    let out = handle_config_command(&mut c, &args(&["bftp", "config", "add-user"]));
    assert_eq!(out.err, args(&["用法: bftp config add-user <用户名>"]));
    let out = handle_config_command(&mut c, &args(&["bftp", "config", "wat"]));
    assert_eq!(out.err, args(&["未知子命令: wat", "可用子命令: show, set-default, add-user, remove-user, list-users"]));
}

#[test]
fn session_account_selection() {
    let c = sample_config();
    let (c, token, user) = handle_command_line_args(c, &args(&["bftp"]));
    assert_eq!(user, "alice");
    assert_eq!(token, "tok");
    let (c, token, user) = handle_command_line_args(c, &args(&["bftp", "dave"]));
    assert_eq!(user, "dave");
    assert_eq!(token, "");
    assert!(c.has_user("dave"));
}

#[test]
fn helper_completes_command_names() {
    let helper = bftp::completion::BftpHelper;
    assert_eq!(helper.complete("mk"), ("mk".to_string(), vec!["mkdir".to_string()]));
    let (_, all) = helper.complete("");
    for c in &all {
        assert_eq!(complete_command(c).1.contains(c), true);
    }
}
