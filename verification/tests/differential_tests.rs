//! The library against straightforward string-based implementations of the
//! same operations, on exhaustive small inputs.

use bftp::cli::shell_split;
use bftp::display::{format_timestamp, month_day_from_days};
use bftp::path_utils::{normalize_path, parse_dest_path, simplify_path};
use bftp::wildcard::{glob_to_regex, parse_wildcard_path};
use std::path::Path;

fn words_over(alphabet: &[char], max_len: usize) -> Vec<String> {
    let mut out = vec![String::new()];
    let mut layer = vec![String::new()];
    for _ in 0..max_len {
        let mut next = Vec::new();
        for s in &layer {
            for c in alphabet {
                let mut t = s.clone();
                t.push(*c);
                next.push(t);
            }
        }
        out.extend(next.iter().cloned());
        layer = next;
    }
    out
}

fn stack_simplify(path: &str) -> String {
    let mut stack: Vec<&str> = Vec::new();
    for component in path.split('/') {
        match component {
            "" | "." => continue,
            ".." => {
                stack.pop();
            }
            _ => stack.push(component),
        }
    }
    if stack.is_empty() { "/".to_string() } else { format!("/{}", stack.join("/")) }
}

fn string_normalize(current: &str, target: &str) -> String {
    if target.starts_with('/') {
        stack_simplify(target)
    } else if target == ".." {
        if current == "/" {
            "/".to_string()
        } else {
            let trimmed = current.trim_end_matches('/');
            match trimmed.rfind('/') {
                Some(0) | None => "/".to_string(),
                Some(pos) => trimmed[..pos].to_string(),
            }
        }
    } else if target == "." {
        current.to_string()
    } else if current.ends_with('/') {
        stack_simplify(&format!("{}{}", current, target))
    } else {
        stack_simplify(&format!("{}/{}", current, target))
    }
}

fn string_dest(current: &str, dest: &str, src: &str) -> (String, String) {
    let src_name = Path::new(src).file_name().and_then(|n| n.to_str()).unwrap_or("untitled");
    if dest.ends_with('/') {
        (string_normalize(current, dest), src_name.to_string())
    } else {
        let full = string_normalize(current, dest);
        let parent = Path::new(&full).parent().and_then(|p| p.to_str()).unwrap_or("/").to_string();
        let name = Path::new(&full).file_name().and_then(|n| n.to_str()).unwrap_or("untitled").to_string();
        (parent, name)
    }
}

fn char_glob(pattern: &str) -> String {
    let mut re = String::from("^");
    let chars: Vec<char> = pattern.chars().collect();
    let mut i = 0;
    while i < chars.len() {
        match chars[i] {
            '*' => re.push_str("[^/]*"),
            '?' => re.push_str("[^/]"),
            '[' => {
                re.push('[');
                i += 1;
                if i < chars.len() && (chars[i] == '!' || chars[i] == '^') {
                    re.push('^');
                    i += 1;
                }
                while i < chars.len() && chars[i] != ']' {
                    re.push(chars[i]);
                    i += 1;
                }
                if i < chars.len() {
                    re.push(']');
                }
            }
            '.' | '+' | '(' | ')' | '^' | '$' | '{' | '}' | '|' | '\\' => {
                re.push('\\');
                re.push(chars[i]);
            }
            c => re.push(c),
        }
        i += 1;
    }
    re.push('$');
    re
}

fn char_split(line: &str) -> Vec<String> {
    let mut args = Vec::new();
    let mut current = String::new();
    let mut chars = line.chars();
    while let Some(ch) = chars.next() {
        match ch {
            ' ' | '\t' => {
                if !current.is_empty() {
                    args.push(std::mem::take(&mut current));
                }
            }
            '\\' => {
                if let Some(next) = chars.next() {
                    current.push(next);
                }
            }
            '\'' => {
                for c in chars.by_ref() {
                    if c == '\'' {
                        break;
                    }
                    current.push(c);
                }
            }
            '"' => {
                while let Some(c) = chars.next() {
                    if c == '"' {
                        break;
                    }
                    if c == '\\' {
                        if let Some(next) = chars.next() {
                            current.push(next);
                        }
                    } else {
                        current.push(c);
                    }
                }
            }
            _ => current.push(ch),
        }
    }
    if !current.is_empty() {
        args.push(current);
    }
    args
}

fn civil(days: i64) -> (u32, u32) {
    let z = days + 719468;
    let era = (if z >= 0 { z } else { z - 146096 }) / 146097;
    let doe = (z - era * 146097) as u32;
    let yoe = (doe - doe / 1460 + doe / 36524 - doe / 146096) / 365;
    let doy = doe - (365 * yoe + yoe / 4 - yoe / 100);
    let mp = (5 * doy + 2) / 153;
    let d = doy - (153 * mp + 2) / 5 + 1;
    let m = if mp < 10 { mp + 3 } else { mp - 9 };
    (m, d)
}

fn int_timestamp(timestamp: u64) -> String {
    let secs = timestamp as i64;
    let days = secs / 86400;
    let time_in_day = secs % 86400;
    let hours = time_in_day / 3600;
    let minutes = (time_in_day % 3600) / 60;
    let (month, day) = civil(days);
    format!("{:02}-{:02} {:02}:{:02}", month, day, hours, minutes)
}

#[test]
fn simplify_matches_stack_simplification() {
    for s in words_over(&['a', '.', '/'], 6) {
        assert_eq!(simplify_path(&s), stack_simplify(&s), "path {:?}", s);
    }
}

#[test]
fn normalize_matches_string_resolution() {
    let small = words_over(&['a', '.', '/'], 4);
    for c in &small {
        for t in &small {
            assert_eq!(normalize_path(c, t), string_normalize(c, t), "current {:?} target {:?}", c, t);
        }
    }
}

#[test]
fn dest_matches_string_resolution() {
    let small = words_over(&['a', '.', '/'], 3);
    for d in &small {
        for s in ["/x/f", "/", "g", "/x/.."] {
            assert_eq!(parse_dest_path("/c/d", d, s), string_dest("/c/d", d, s), "dest {:?} src {:?}", d, s);
        }
    }
}

#[test]
fn glob_matches_character_scan() {
    for p in words_over(&['*', '?', '[', ']', '!', '^', '.', 'a', '\\'], 4) {
        assert_eq!(glob_to_regex(&p), char_glob(&p), "pattern {:?}", p);
    }
}

#[test]
fn wildcard_split_matches_byte_search() {
    for p in words_over(&['a', '/', '.', '*', '?'], 5) {
        if !p.contains(['*', '?', '[']) {
            continue;
        }
        for remote in [true, false] {
            let first = p.find(['*', '?', '[']).unwrap();
            let dir_end = p[..first].rfind('/').map(|i| i + 1).unwrap_or(0);
            let dir_part = &p[..dir_end];
            let pattern = &p[dir_end..];
            let dir = if dir_part.is_empty() || dir_part == "." {
                "/cur".to_string()
            } else if dir_part.starts_with('/') {
                if remote { stack_simplify(dir_part) } else { dir_part.to_string() }
            } else if remote {
                string_normalize("/cur", dir_part)
            } else {
                format!("/cur/{}", dir_part)
            };
            assert_eq!(parse_wildcard_path(&p, "/cur", remote), (dir, pattern.to_string()), "path {:?}", p);
        }
    }
}

#[test]
fn split_matches_character_scan() {
    for line in words_over(&['a', ' ', '\t', '\\', '\'', '"'], 6) {
        assert_eq!(shell_split(&line), char_split(&line), "line {:?}", line);
    }
}

#[test]
fn calendar_matches_integer_arithmetic() {
    for days in -800_000i64..800_000 {
        assert_eq!(month_day_from_days(days), civil(days), "days {}", days);
    }
    for days in [i64::MIN / 86400, i64::MAX / 86400, -1_000_000_000, 1_000_000_000] {
        assert_eq!(month_day_from_days(days), civil(days));
    }
}

#[test]
fn timestamps_match_integer_arithmetic() {
    let mut t: u64 = 1;
    for _ in 0..20000 {
        assert_eq!(format_timestamp(t), int_timestamp(t), "timestamp {}", t);
        t = t.wrapping_mul(6364136223846793005).wrapping_add(1442695040888963407);
    }
    for t in [0u64, 59, 60, 86399, 86400, u64::MAX, 1 << 63, (1 << 63) - 1] {
        assert_eq!(format_timestamp(t), int_timestamp(t), "timestamp {}", t);
    }
}
