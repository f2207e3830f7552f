//! The interactive shell's command language: splitting a line into words,
//! reading each command's arguments, and deciding what a command does.

use vstd::prelude::*;
use crate::config::{same_settings, Config};
use crate::text::{chars_of, extend_chars, str_eq, string_of, views, views_of_strings};

verus! {

/// Where the splitter is within a line.
#[derive(PartialEq, Eq, Structural, Clone, Copy)]
pub enum SplitMode {
    /// Between or inside unquoted words.
    Normal,
    /// After a `\` outside quotes: the next character is taken literally.
    Escape,
    /// Inside `'…'`.
    Single,
    /// Inside `"…"`.
    Double,
    /// After a `\` inside `"…"`.
    DoubleEscape,
}

/// The splitter's state: finished words, the word being built, the mode.
pub struct SplitState {
    pub words: Seq<Seq<char>>,
    pub cur: Seq<char>,
    pub mode: SplitMode,
}

/// One character of input: spaces and tabs end a word outside quotes, `\`
/// escapes the next character (also inside `"…"`), quotes group characters
/// and are themselves dropped.
pub open spec fn split_step(st: SplitState, c: char) -> SplitState {
    match st.mode {
        SplitMode::Normal => {
            if c == ' ' || c == '\t' {
                if st.cur.len() > 0 {
                    SplitState { words: st.words.push(st.cur), cur: Seq::empty(), mode: SplitMode::Normal }
                } else {
                    st
                }
            } else if c == '\\' {
                SplitState { mode: SplitMode::Escape, ..st }
            } else if c == '\'' {
                SplitState { mode: SplitMode::Single, ..st }
            } else if c == '"' {
                SplitState { mode: SplitMode::Double, ..st }
            } else {
                SplitState { cur: st.cur.push(c), ..st }
            }
        },
        SplitMode::Escape => SplitState { cur: st.cur.push(c), mode: SplitMode::Normal, ..st },
        SplitMode::Single => {
            if c == '\'' {
                SplitState { mode: SplitMode::Normal, ..st }
            } else {
                SplitState { cur: st.cur.push(c), ..st }
            }
        },
        SplitMode::Double => {
            if c == '"' {
                SplitState { mode: SplitMode::Normal, ..st }
            } else if c == '\\' {
                SplitState { mode: SplitMode::DoubleEscape, ..st }
            } else {
                SplitState { cur: st.cur.push(c), ..st }
            }
        },
        SplitMode::DoubleEscape => SplitState { cur: st.cur.push(c), mode: SplitMode::Double, ..st },
    }
}

/// The state after reading all of `s`.
pub open spec fn split_run(s: Seq<char>) -> SplitState
    decreases s.len(),
{
    if s.len() == 0 {
        SplitState { words: Seq::empty(), cur: Seq::empty(), mode: SplitMode::Normal }
    } else {
        split_step(split_run(s.drop_last()), s.last())
    }
}

/// The words of a command line: the finished words and a last unfinished
/// one (an open quote or a trailing `\` simply ends the line).
pub open spec fn shell_words(s: Seq<char>) -> Seq<Seq<char>> {
    let st = split_run(s);
    if st.cur.len() > 0 { st.words.push(st.cur) } else { st.words }
}

/// Splits a command line into words, shell style: single and double quotes
/// group characters, a backslash escapes the next character (also inside
/// double quotes), and spaces and tabs separate words.
pub fn shell_split(line: &str) -> (r: Vec<String>)
    ensures
        views_of_strings(r@) == shell_words(line@),
{
    let cs = crate::text::chars_of(line);
    let mut words: Vec<Vec<char>> = Vec::new();
    let mut cur: Vec<char> = Vec::new();
    let mut mode = SplitMode::Normal;
    assert(cs@.take(0) =~= Seq::<char>::empty());
    assert(views(words@) =~= Seq::<Seq<char>>::empty());
    for i in 0..cs.len()
        invariant
            split_run(cs@.take(i as int)) == (SplitState { words: views(words@), cur: cur@, mode }),
    {
        let c = cs[i];
        assert(cs@.take(i + 1).drop_last() =~= cs@.take(i as int));
        assert(cs@.take(i + 1).last() == c);
        let ghost before = views(words@);
        match mode {
            SplitMode::Normal => {
                if c == ' ' || c == '\t' {
                    if cur.len() > 0 {
                        let w = cur;
                        words.push(w);
                        cur = Vec::new();
                        assert(views(words@) =~= before.push(w@));
                    }
                } else if c == '\\' {
                    mode = SplitMode::Escape;
                } else if c == '\'' {
                    mode = SplitMode::Single;
                } else if c == '"' {
                    mode = SplitMode::Double;
                } else {
                    cur.push(c);
                }
            },
            SplitMode::Escape => {
                cur.push(c);
                mode = SplitMode::Normal;
            },
            SplitMode::Single => {
                if c == '\'' {
                    mode = SplitMode::Normal;
                } else {
                    cur.push(c);
                }
            },
            SplitMode::Double => {
                if c == '"' {
                    mode = SplitMode::Normal;
                } else if c == '\\' {
                    mode = SplitMode::DoubleEscape;
                } else {
                    cur.push(c);
                }
            },
            SplitMode::DoubleEscape => {
                cur.push(c);
                mode = SplitMode::Double;
            },
        }
        assert(split_run(cs@.take(i + 1)) =~= (SplitState { words: views(words@), cur: cur@, mode }));
    }
    assert(cs@.take(cs@.len() as int) =~= cs@);
    let ghost fin = views(words@);
    if cur.len() > 0 {
        let w = cur;
        words.push(w);
        assert(views(words@) =~= fin.push(w@));
    }
    let mut out: Vec<String> = Vec::new();
    for k in 0..words.len()
        invariant
            views_of_strings(out@) == views(words@).take(k as int),
    {
        let ghost before = views_of_strings(out@);
        let w = string_of(&words[k]);
        assert(w@ == views(words@)[k as int]);
        out.push(w);
        assert(views_of_strings(out@) =~= before.push(w@));
        assert(views_of_strings(out@) =~= views(words@).take(k + 1));
    }
    assert(views(words@).take(words@.len() as int) =~= views(words@));
    out
}

/// The invariant of splitting: no finished word is empty.
proof fn lemma_split_run_words_nonempty(s: Seq<char>)
    ensures
        forall|i: int| 0 <= i < split_run(s).words.len() ==> (#[trigger] split_run(s).words[i]).len() > 0,
    decreases s.len(),
{
    if s.len() > 0 {
        lemma_split_run_words_nonempty(s.drop_last());
        let p = split_run(s.drop_last());
        let q = split_run(s);
        assert forall|i: int| 0 <= i < q.words.len() implies (#[trigger] q.words[i]).len() > 0 by {
            if i < p.words.len() {
                assert(q.words[i] == p.words[i]);
            }
        }
    }
}

/// Is `c` a character that quotes or escapes?
pub open spec fn is_quoting(c: char) -> bool {
    c == '\\' || c == '\'' || c == '"'
}

/// `s` without its spaces and tabs.
pub open spec fn without_blanks(s: Seq<char>) -> Seq<char>
    decreases s.len(),
{
    if s.len() == 0 {
        Seq::empty()
    } else if s.last() == ' ' || s.last() == '\t' {
        without_blanks(s.drop_last())
    } else {
        without_blanks(s.drop_last()).push(s.last())
    }
}

/// All words put together.
pub open spec fn concat_words(ws: Seq<Seq<char>>) -> Seq<char>
    decreases ws.len(),
{
    if ws.len() == 0 { Seq::empty() } else { concat_words(ws.drop_last()) + ws.last() }
}

proof fn lemma_plain_run(s: Seq<char>)
    requires
        forall|i: int| 0 <= i < s.len() ==> !is_quoting(#[trigger] s[i]),
    ensures
        split_run(s).mode == SplitMode::Normal,
        concat_words(split_run(s).words) + split_run(s).cur == without_blanks(s),
        forall|i: int| 0 <= i < split_run(s).words.len() ==> !crate::text::has_char(#[trigger] split_run(s).words[i], ' ')
            && !crate::text::has_char(split_run(s).words[i], '\t'),
        !crate::text::has_char(split_run(s).cur, ' ') && !crate::text::has_char(split_run(s).cur, '\t'),
    decreases s.len(),
{
    if s.len() > 0 {
        let d = s.drop_last();
        assert forall|i: int| 0 <= i < d.len() implies !is_quoting(#[trigger] d[i]) by {
            assert(d[i] == s[i]);
        }
        lemma_plain_run(d);
        let p = split_run(d);
        let q = split_run(s);
        let c = s.last();
        assert(!is_quoting(s[s.len() - 1]));
        if c == ' ' || c == '\t' {
            if p.cur.len() > 0 {
                assert(concat_words(q.words) == concat_words(p.words) + p.cur) by {
                    assert(q.words.drop_last() =~= p.words);
                }
                assert(concat_words(q.words) + q.cur =~= concat_words(p.words) + p.cur);
                assert forall|i: int| 0 <= i < q.words.len() implies !crate::text::has_char(#[trigger] q.words[i], ' ')
                    && !crate::text::has_char(q.words[i], '\t') by {
                    if i < p.words.len() {
                        assert(q.words[i] == p.words[i]);
                    }
                }
            }
        } else {
            assert(concat_words(q.words) + q.cur =~= (concat_words(p.words) + p.cur).push(c));
            assert(!crate::text::has_char(q.cur, ' ') && !crate::text::has_char(q.cur, '\t')) by {
                assert forall|j: int| 0 <= j < q.cur.len() implies #[trigger] q.cur[j] != ' ' && q.cur[j] != '\t' by {
                    if j < p.cur.len() {
                        assert(q.cur[j] == p.cur[j]);
                    }
                }
            }
        }
    }
}

/// Law: every word of a split line is non-empty; and for a line without
/// quotes or backslashes the words hold no space or tab and, put together,
/// are exactly the line's other characters.
pub proof fn shell_words_laws(s: Seq<char>)
    ensures
        forall|i: int| 0 <= i < shell_words(s).len() ==> (#[trigger] shell_words(s)[i]).len() > 0,
        (forall|i: int| 0 <= i < s.len() ==> !is_quoting(#[trigger] s[i])) ==> {
            &&& concat_words(shell_words(s)) == without_blanks(s)
            &&& forall|i: int| 0 <= i < shell_words(s).len() ==> !crate::text::has_char(#[trigger] shell_words(s)[i], ' ')
                && !crate::text::has_char(shell_words(s)[i], '\t')
        },
{
    lemma_split_run_words_nonempty(s);
    let st = split_run(s);
    let w = shell_words(s);
    assert forall|i: int| 0 <= i < w.len() implies (#[trigger] w[i]).len() > 0 by {
        if i < st.words.len() {
            assert(w[i] == st.words[i]);
        }
    }
    if forall|i: int| 0 <= i < s.len() ==> !is_quoting(#[trigger] s[i]) {
        lemma_plain_run(s);
        if st.cur.len() > 0 {
            assert(w.drop_last() =~= st.words);
        } else {
            assert(st.cur =~= Seq::<char>::empty());
            assert(concat_words(st.words) + st.cur =~= concat_words(st.words));
        }
        assert forall|i: int| 0 <= i < w.len() implies !crate::text::has_char(#[trigger] w[i], ' ')
            && !crate::text::has_char(w[i], '\t') by {
            if i < st.words.len() {
                assert(w[i] == st.words[i]);
            }
        }
    }
}

// ---- `bftp config` ----

/// What `bftp config ...` asks for, by the program's arguments.
pub enum ConfigAction {
    /// Show the settings and accounts.
    Show,
    /// Make an account the default.
    SetDefault { name: Seq<char> },
    /// Add an account without a token (an existing one loses its token).
    AddUser { name: Seq<char> },
    /// Remove an account.
    RemoveUser { name: Seq<char> },
    /// List the account names.
    ListUsers,
    /// A subcommand without its account name: print this usage line.
    MissingName { usage: Seq<char> },
    /// Not a subcommand.
    Unknown { sub: Seq<char> },
}

/// The action of the arguments `a` (`a[1]` is `config`, `a[2]` the
/// subcommand, `a[3]` its account name).
pub open spec fn config_action(a: Seq<Seq<char>>) -> ConfigAction {
    if a.len() <= 2 || a[2] == "show"@ {
        ConfigAction::Show
    } else if a[2] == "set-default"@ {
        if a.len() < 4 {
            ConfigAction::MissingName { usage: "用法: bftp config set-default <用户名>"@ }
        } else {
            ConfigAction::SetDefault { name: a[3] }
        }
    } else if a[2] == "add-user"@ {
        if a.len() < 4 {
            ConfigAction::MissingName { usage: "用法: bftp config add-user <用户名>"@ }
        } else {
            ConfigAction::AddUser { name: a[3] }
        }
    } else if a[2] == "remove-user"@ {
        if a.len() < 4 {
            ConfigAction::MissingName { usage: "用法: bftp config remove-user <用户名>"@ }
        } else {
            ConfigAction::RemoveUser { name: a[3] }
        }
    } else if a[2] == "list-users"@ {
        ConfigAction::ListUsers
    } else {
        ConfigAction::Unknown { sub: a[2] }
    }
}

/// Whether an account has a (non-empty) token.
pub open spec fn status_text(c: &Config, u: Seq<char>) -> Seq<char> {
    if c.users@.dom().contains(u) && c.users@[u].len() > 0 { "已授权"@ } else { "未授权"@ }
}

/// One account in the settings overview, the default marked with `*`.
pub open spec fn overview_user_line(c: &Config, u: Seq<char>) -> Seq<char> {
    (if u == c.default@ { "    * "@ } else { "    - "@ }) + u + " ("@ + status_text(c, u) + ")"@
}

/// The settings overview: client id, redirect URI, scope, default account,
/// then every account in table order with its authorization status.
pub open spec fn overview_lines(c: &Config) -> Seq<Seq<char>> {
    seq![
        "当前配置:"@,
        "  client_id:    "@ + c.client_id@,
        "  redirect_uri: "@ + c.redirect_uri@,
        "  scope:        "@ + c.scope@,
        "  默认用户:     "@ + c.default@,
        "  用户列表:"@,
    ] + Seq::new(c.users.order().len(), |i: int| overview_user_line(c, c.users.order()[i]))
}

/// One account in the account list, the default marked.
pub open spec fn list_user_line(c: &Config, u: Seq<char>) -> Seq<char> {
    if u == c.default@ { "  * "@ + u + " (默认)"@ } else { "  - "@ + u }
}

/// The account list, in table order.
pub open spec fn user_list_lines(c: &Config) -> Seq<Seq<char>> {
    seq!["用户列表:"@] + Seq::new(c.users.order().len(), |i: int| list_user_line(c, c.users.order()[i]))
}

/// The result of `bftp config ...`: lines for standard output and standard
/// error, and whether the configuration is to be saved before they are shown.
pub struct ConfigOutcome {
    pub out: Vec<String>,
    pub err: Vec<String>,
    pub save: bool,
}

fn concat3(a: &str, b: &str, c: &str) -> (r: String)
    ensures
        r@ == a@ + b@ + c@,
{
    let mut v = chars_of(a);
    extend_chars(&mut v, &chars_of(b));
    extend_chars(&mut v, &chars_of(c));
    string_of(&v)
}

fn concat2(a: &str, b: &str) -> (r: String)
    ensures
        r@ == a@ + b@,
{
    let mut v = chars_of(a);
    extend_chars(&mut v, &chars_of(b));
    string_of(&v)
}

fn one_line(s: String) -> (r: Vec<String>)
    ensures
        views_of_strings(r@) == seq![s@],
{
    let mut v = Vec::new();
    v.push(s);
    assert(views_of_strings(v@) =~= seq![s@]);
    v
}

/// The settings overview of `config` (see [`overview_lines`]).
pub fn config_overview(config: &Config) -> (r: Vec<String>)
    ensures
        views_of_strings(r@) == overview_lines(config),
{
    let mut lines: Vec<String> = Vec::new();
    lines.push(string_of(&chars_of("当前配置:")));
    lines.push(concat2("  client_id:    ", config.client_id.as_str()));
    lines.push(concat2("  redirect_uri: ", config.redirect_uri.as_str()));
    lines.push(concat2("  scope:        ", config.scope.as_str()));
    lines.push(concat2("  默认用户:     ", config.default.as_str()));
    lines.push(string_of(&chars_of("  用户列表:")));
    let ghost head = seq![
        "当前配置:"@,
        "  client_id:    "@ + config.client_id@,
        "  redirect_uri: "@ + config.redirect_uri@,
        "  scope:        "@ + config.scope@,
        "  默认用户:     "@ + config.default@,
        "  用户列表:"@,
    ];
    let ghost order = config.users.order();
    assert(views_of_strings(lines@) =~= head);
    let users = config.get_users();
    for i in 0..users.len()
        invariant
            users@.len() == order.len(),
            forall|j: int| 0 <= j < users@.len() ==> #[trigger] users@[j]@ == order[j],
            views_of_strings(lines@) == head + Seq::new(i as nat, |j: int| overview_user_line(config, order[j])),
    {
        let u: &String = users[i];
        let has_token = match config.get_user_token(u.as_str()) {
            Some(t) => chars_of(t.as_str()).len() > 0,
            None => false,
        };
        let mark = if str_eq(u.as_str(), config.default.as_str()) { "    * " } else { "    - " };
        let status = if has_token { "已授权" } else { "未授权" };
        let mut v = chars_of(mark);
        extend_chars(&mut v, &chars_of(u.as_str()));
        extend_chars(&mut v, &chars_of(" ("));
        extend_chars(&mut v, &chars_of(status));
        extend_chars(&mut v, &chars_of(")"));
        let ghost before = views_of_strings(lines@);
        lines.push(string_of(&v));
        assert(u@ == order[i as int]);
        assert(views_of_strings(lines@) =~= before.push(overview_user_line(config, order[i as int])));
        assert(Seq::new((i + 1) as nat, |j: int| overview_user_line(config, order[j]))
            =~= Seq::new(i as nat, |j: int| overview_user_line(config, order[j])).push(overview_user_line(config, order[i as int])));
    }
    lines
}

/// The account list of `config` (see [`user_list_lines`]).
pub fn user_list(config: &Config) -> (r: Vec<String>)
    ensures
        views_of_strings(r@) == user_list_lines(config),
{
    let mut lines: Vec<String> = Vec::new();
    lines.push(string_of(&chars_of("用户列表:")));
    let ghost order = config.users.order();
    assert(views_of_strings(lines@) =~= seq!["用户列表:"@]);
    let users = config.get_users();
    for i in 0..users.len()
        invariant
            users@.len() == order.len(),
            forall|j: int| 0 <= j < users@.len() ==> #[trigger] users@[j]@ == order[j],
            views_of_strings(lines@) == seq!["用户列表:"@] + Seq::new(i as nat, |j: int| list_user_line(config, order[j])),
    {
        let u: &String = users[i];
        let line = if str_eq(u.as_str(), config.default.as_str()) {
            concat3("  * ", u.as_str(), " (默认)")
        } else {
            concat2("  - ", u.as_str())
        };
        let ghost before = views_of_strings(lines@);
        lines.push(line);
        assert(u@ == order[i as int]);
        assert(views_of_strings(lines@) =~= before.push(list_user_line(config, order[i as int])));
        assert(Seq::new((i + 1) as nat, |j: int| list_user_line(config, order[j]))
            =~= Seq::new(i as nat, |j: int| list_user_line(config, order[j])).push(list_user_line(config, order[i as int])));
    }
    lines
}

/// Runs `bftp config ...` on `config` with the program's arguments `args`:
/// `show` (also with no subcommand) and `list-users` only print;
/// `set-default`, `add-user` and `remove-user` change the configuration and
/// ask for it to be saved, unless the named account is missing (for
/// `set-default` and `remove-user`) or no name is given.
pub fn handle_config_command(config: &mut Config, args: &Vec<String>) -> (r: ConfigOutcome)
    ensures
        match config_action(views_of_strings(args@)) {
            ConfigAction::Show => *final(config) == *old(config)
                && views_of_strings(r.out@) == overview_lines(old(config))
                && r.err@.len() == 0 && !r.save,
            ConfigAction::ListUsers => *final(config) == *old(config)
                && views_of_strings(r.out@) == user_list_lines(old(config))
                && r.err@.len() == 0 && !r.save,
            ConfigAction::MissingName { usage } => *final(config) == *old(config)
                && r.out@.len() == 0 && views_of_strings(r.err@) == seq![usage] && !r.save,
            ConfigAction::Unknown { sub } => *final(config) == *old(config)
                && r.out@.len() == 0 && !r.save
                && views_of_strings(r.err@) == seq![
                    "未知子命令: "@ + sub,
                    "可用子命令: show, set-default, add-user, remove-user, list-users"@,
                ],
            ConfigAction::SetDefault { name } => if old(config).users@.dom().contains(name) {
                same_settings(final(config), old(config)) && final(config).users == old(config).users
                    && final(config).default@ == name
                    && views_of_strings(r.out@) == seq!["默认用户已切换为: "@ + name]
                    && r.err@.len() == 0 && r.save
            } else {
                *final(config) == *old(config) && r.out@.len() == 0 && !r.save
                    && views_of_strings(r.err@) == seq!["用户 '"@ + name + "' 不存在"@]
            },
            ConfigAction::AddUser { name } => same_settings(final(config), old(config))
                && final(config).default@ == old(config).default@
                && final(config).users@ == old(config).users@.insert(name, Seq::<char>::empty())
                && views_of_strings(r.out@) == seq!["用户 '"@ + name + "' 已添加"@]
                && r.err@.len() == 0 && r.save,
            ConfigAction::RemoveUser { name } => same_settings(final(config), old(config))
                && final(config).users@ == old(config).users@.remove(name)
                && (old(config).users@.dom().contains(name) ==> views_of_strings(r.out@) == seq!["用户 '"@ + name + "' 已删除"@]
                    && r.err@.len() == 0 && r.save)
                && (!old(config).users@.dom().contains(name) ==> views_of_strings(r.err@) == seq!["用户 '"@ + name + "' 不存在"@]
                    && r.out@.len() == 0 && !r.save)
                && ((old(config).default@ == name && final(config).users@ != Map::<Seq<char>, Seq<char>>::empty())
                    ==> final(config).users@.dom().contains(final(config).default@))
                && (!(old(config).default@ == name && final(config).users@ != Map::<Seq<char>, Seq<char>>::empty())
                    ==> final(config).default@ == old(config).default@),
        },
{
    let ghost a = views_of_strings(args@);
    let none: Vec<String> = Vec::new();
    assert(views_of_strings(none@) =~= Seq::<Seq<char>>::empty());
    if args.len() <= 2 || str_eq(args[2].as_str(), "show") {
        return ConfigOutcome { out: config_overview(config), err: none, save: false };
    }
    let sub = args[2].as_str();
    assert(a[2] == sub@);
    let is_set = str_eq(sub, "set-default");
    let is_add = str_eq(sub, "add-user");
    let is_remove = str_eq(sub, "remove-user");
    if !(is_set || is_add || is_remove) && str_eq(sub, "list-users") {
        return ConfigOutcome { out: user_list(config), err: none, save: false };
    }
    if !(is_set || is_add || is_remove) {
        let mut err: Vec<String> = Vec::new();
        err.push(concat2("未知子命令: ", sub));
        err.push(string_of(&chars_of("可用子命令: show, set-default, add-user, remove-user, list-users")));
        assert(views_of_strings(err@) =~= seq![
            "未知子命令: "@ + sub@,
            "可用子命令: show, set-default, add-user, remove-user, list-users"@,
        ]);
        return ConfigOutcome { out: none, err, save: false };
    }
    if args.len() < 4 {
        let usage = if is_set {
            "用法: bftp config set-default <用户名>"
        } else if is_add {
            "用法: bftp config add-user <用户名>"
        } else {
            "用法: bftp config remove-user <用户名>"
        };
        return ConfigOutcome { out: none, err: one_line(string_of(&chars_of(usage))), save: false };
    }
    let name = args[3].as_str();
    assert(a[3] == name@);
    if is_set {
        if !config.has_user(name) {
            return ConfigOutcome { out: none, err: one_line(concat3("用户 '", name, "' 不存在")), save: false };
        }
        config.set_default_user(name);
        ConfigOutcome { out: one_line(concat2("默认用户已切换为: ", name)), err: none, save: true }
    } else if is_add {
        config.add_user(name, None);
        ConfigOutcome { out: one_line(concat3("用户 '", name, "' 已添加")), err: none, save: true }
    } else {
        match config.remove_user(name) {
            None => ConfigOutcome { out: none, err: one_line(concat3("用户 '", name, "' 不存在")), save: false },
            Some(_) => ConfigOutcome { out: one_line(concat3("用户 '", name, "' 已删除")), err: none, save: true },
        }
    }
}

// ---- program arguments ----

/// The account a session runs as: the first program argument when there is
/// one, else the default account.
pub open spec fn session_user(c: &Config, a: Seq<Seq<char>>) -> Seq<char> {
    if a.len() > 1 { a[1] } else { c.default@ }
}

/// Picks the account from the program's arguments `args` and reads its
/// token, adding the account with an empty token when it is new. Gives the
/// configuration, the token and the account name.
pub fn handle_command_line_args(config: Config, args: &Vec<String>) -> (r: (Config, String, String))
    ensures
        r.2@ == session_user(&config, views_of_strings(args@)),
        same_settings(&r.0, &config),
        r.0.default@ == config.default@,
        config.users@.dom().contains(r.2@) ==> r.1@ == config.users@[r.2@] && r.0.users@ == config.users@,
        !config.users@.dom().contains(r.2@) ==> r.1@ == Seq::<char>::empty()
            && r.0.users@ == config.users@.insert(r.2@, Seq::<char>::empty()),
{
    let mut config = config;
    let username = if args.len() > 1 {
        args[1].clone()
    } else {
        config.default.clone()
    };
    let token = config.get_or_create_user_token(username.as_str());
    (config, token, username)
}

} // verus!
