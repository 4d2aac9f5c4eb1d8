use pi::error::Error;
use pi::utils::{
    app_config, exit_code, has_answer, home, home_from, join, pi_config, read_line, read_prompt,
    truncate, Prompt,
};

#[test]
fn prompt_is_yes_or_no() {
    assert!(Prompt::Yes.is_yes());
    assert!(!Prompt::Yes.is_no());
    assert!(Prompt::No.is_no());
    assert!(!Prompt::No.is_yes());
}

#[test]
fn default_yes_takes_everything_but_n() {
    for line in ["y", "Y", "yes", "x", "maybe", "1", "  y\n", ".n"] {
        assert_eq!(read_prompt(&Prompt::Yes, line), Prompt::Yes, "{:?}", line);
    }
    for line in ["n", "N", "no", "NO", "nope\n", "  n  ", "\tN\r\n"] {
        assert_eq!(read_prompt(&Prompt::Yes, line), Prompt::No, "{:?}", line);
    }
}

#[test]
fn default_no_takes_only_y() {
    for line in ["y", "Y", "yes", "YES\n", "  y  ", "yn"] {
        assert_eq!(read_prompt(&Prompt::No, line), Prompt::Yes, "{:?}", line);
    }
    for line in ["n", "N", "x", "maybe", "1", " ny", "ÿ"] {
        assert_eq!(read_prompt(&Prompt::No, line), Prompt::No, "{:?}", line);
    }
}

#[test]
fn the_answer_goes_by_the_first_letter_in_lower_case() {
    for u in 0..=0x10ffffu32 {
        let Some(c) = char::from_u32(u) else { continue };
        if c.is_whitespace() {
            continue;
        }
        let line = format!("{}es", c);
        let first = line.to_lowercase().chars().next().unwrap();
        let yes = if first != 'n' { Prompt::Yes } else { Prompt::No };
        let no = if first == 'y' { Prompt::Yes } else { Prompt::No };
        assert_eq!(read_prompt(&Prompt::Yes, &line), yes, "U+{:04X}", u);
        assert_eq!(read_prompt(&Prompt::No, &line), no, "U+{:04X}", u);
    }
}

#[test]
fn a_line_of_whitespace_holds_no_answer() {
    assert!(!has_answer(""));
    assert!(!has_answer("\n"));
    assert!(!has_answer("  \t\r\n"));
    assert!(has_answer("y\n"));
    assert!(has_answer("  n"));
}

#[test]
fn read_line_trims() {
    assert_eq!(read_line("  my network \n"), "my network");
    assert_eq!(read_line("\n"), "");
    assert_eq!(read_line("secret"), "secret");
}

#[test]
fn truncate_keeps_the_low_byte() {
    assert_eq!(truncate(0), 0);
    assert_eq!(truncate(1), 1);
    assert_eq!(truncate(255), 255);
    assert_eq!(truncate(256), 0);
    assert_eq!(truncate(257), 1);
    assert_eq!(truncate(-1), 255);
    assert_eq!(truncate(-256), 0);
    assert_eq!(truncate(i32::MAX), 255);
    assert_eq!(truncate(i32::MIN), 0);
    for x in [-70000i32, -129, -128, -2, 2, 127, 128, 1000, 65535, 65536, 123456789] {
        assert_eq!(truncate(x), x as u8);
    }
}

#[test]
fn exit_code_of_a_shell() {
    assert_eq!(exit_code(Some(0)), 0);
    assert_eq!(exit_code(Some(3)), 3);
    assert_eq!(exit_code(Some(256)), 0);
    assert_eq!(exit_code(Some(-1)), 255);
    assert_eq!(exit_code(None), 1);
}

#[test]
fn join_puts_a_separator_where_it_is_needed() {
    assert_eq!(join("/home/me", ".ssh"), "/home/me/.ssh");
    assert_eq!(join("/home/me/", ".ssh"), "/home/me/.ssh");
    assert_eq!(join("/", "x"), "/x");
    assert_eq!(join("", "x"), "x");
    assert_eq!(join("a", ""), "a/");
    assert_eq!(join("", ""), "");
    assert_eq!(join("/home/me", "/etc/x"), "/etc/x");
    assert_eq!(join("rel", "a/b"), "rel/a/b");
}

#[test]
fn join_is_the_join_of_paths() {
    for base in ["", "/", "/home/me", "/home/me/", "rel", "rel/", "a//", "/ü"] {
        for part in ["", "x", ".ssh", "/abs", "a/b", "/", "x.pub", "ü"] {
            let expected = std::path::Path::new(base).join(part);
            assert_eq!(join(base, part), expected.to_str().unwrap(), "{:?} {:?}", base, part);
        }
    }
}

#[test]
fn home_is_an_error_only_where_there_is_none() {
    assert_eq!(home_from(Some(String::from("/home/me"))), Ok(String::from("/home/me")));
    assert_eq!(home_from(Some(String::new())), Ok(String::new()));
    assert_eq!(home_from(None), Err(Error::Environment));
    match home() {
        Ok(_) => {}
        Err(e) => assert_eq!(e, Error::Environment),
    }
}

#[test]
fn the_directory_of_the_application() {
    let dir = app_config("/home/me", true, false).unwrap();
    assert_eq!(dir.path, "/home/me/.pi");
    assert!(!dir.create);
    let dir = app_config("/home/me", false, false).unwrap();
    assert_eq!(dir.path, "/home/me/.pi");
    assert!(dir.create);
    let dir = app_config("/home/me/", false, true).unwrap();
    assert_eq!(dir.path, "/home/me/.pi");
    assert!(dir.create);
    assert_eq!(app_config("/home/me", true, true).unwrap_err(), Error::Io);
    assert_eq!(pi_config(), "/home/pi/.pi");
}
