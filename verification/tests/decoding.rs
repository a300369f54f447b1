use edit_ini::{into_commands, Action, Command};

#[test]
fn test_action_from_str() {
    assert!(Action::from_str("").is_err());
    assert!(Action::from_str("-xxx").is_err());
    assert!(Action::from_str("set").is_err());
    assert_eq!(Action::from_str("   -s ").unwrap(), Action::Put);
    assert_eq!(Action::from_str(" --set   ").unwrap(), Action::Put);
    assert_eq!(Action::from_str(" -r   ").unwrap(), Action::Remove);
    assert_eq!(Action::from_str(" --remove   ").unwrap(), Action::Remove);
}

#[test]
fn test_command_parse() {
    assert!(Command::parse(&[]).is_err());
    assert!(Command::parse(&[""]).is_err());
    assert!(Command::parse(&["", ""]).is_err());
    assert!(Command::parse(&["", "", ""]).is_err());
    assert!(Command::parse(&["", "", "", ""]).is_err());
    assert!(Command::parse(&["-s", "", "", ""]).is_err());
    assert_eq!(
        Command::parse(&["  --set  ", ""]).unwrap(),
        Command {
            action: Action::Put,
            section: String::from(""),
            key: String::from(""),
            value: String::from("")
        }
    );
    assert_eq!(
        Command::parse(&[
            "  --set  ",
            "Section \"A\"  ",
            "'Key1 vvv'   =   \"value1 x value2 x value3\""
        ])
        .unwrap(),
        Command {
            action: Action::Put,
            section: String::from("Section \"A\"  "),
            key: String::from("'Key1 vvv'   "),
            value: String::from("   \"value1 x value2 x value3\"")
        }
    );
    assert_eq!(
        Command::parse(&["  --set  ", "s", "key1"]).unwrap(),
        Command {
            action: Action::Put,
            section: String::from("s"),
            key: String::from("key1"),
            value: String::from("")
        }
    );
    assert_eq!(
        Command::parse(&["  --set  ", "   ", "key1======"]).unwrap(),
        Command {
            action: Action::Put,
            section: String::from("   "),
            key: String::from("key1"),
            value: String::from("=====")
        }
    );

    assert_eq!(
        Command::parse(&["  --remove  "]).unwrap(),
        Command {
            action: Action::Remove,
            section: String::from(""),
            key: String::from(""),
            value: String::from("")
        }
    );
    assert_eq!(
        Command::parse(&["  --remove  ", "Section"]).unwrap(),
        Command {
            action: Action::Remove,
            section: String::from("Section"),
            key: String::from(""),
            value: String::from("")
        }
    );
    assert_eq!(
        Command::parse(&["  -r  ", ""]).unwrap(),
        Command {
            action: Action::Remove,
            section: String::from(""),
            key: String::from(""),
            value: String::from("")
        }
    );
    assert_eq!(
        Command::parse(&["  -r  ", "sect", "aaa"]).unwrap(),
        Command {
            action: Action::Remove,
            section: String::from("sect"),
            key: String::from("aaa"),
            value: String::from("")
        }
    );
}

#[test]
fn test_into_commands() {
    let empty: Vec<String> = vec![];
    assert_eq!(into_commands(&empty), vec![]);
    assert_eq!(
        into_commands(&vec![
            String::from("-s"),
            String::from("House"),
            String::from("Cat=123"),
            String::from("-s"),
            String::from("House \"x\""),
            String::from("Cat=456"),
            String::from("-i"),
            String::from("Ifile"),
            String::from("-o"),
            String::from("Ofile"),
            String::from("-r"),
            String::from("section1"),
            String::from("-r"),
            String::from("Section2"),
            String::from("KeyX")
        ]),
        vec![
            Command {
                action: Action::Put,
                section: String::from("House"),
                key: String::from("Cat"),
                value: String::from("123")
            },
            Command {
                action: Action::Put,
                section: String::from("House \"x\""),
                key: String::from("Cat"),
                value: String::from("456")
            },
            Command {
                action: Action::Remove,
                section: String::from("section1"),
                key: String::from(""),
                value: String::from("")
            },
            Command {
                action: Action::Remove,
                section: String::from("Section2"),
                key: String::from("KeyX"),
                value: String::from("")
            },
        ]
    );
}

#[test]
fn leading_tokens_before_first_flag_are_dropped() {
    let args: Vec<String> = vec![
        String::from("foo"),
        String::from("-s"),
        String::from("A"),
        String::from("K=V"),
    ];
    let cmds = into_commands(&args);
    assert_eq!(
        cmds,
        vec![Command {
            action: Action::Put,
            section: String::from("A"),
            key: String::from("K"),
            value: String::from("V"),
        }]
    );
}

#[test]
fn value_split_happens_at_first_equals_only() {
    let args: Vec<String> = vec![
        String::from("-s"),
        String::from("A"),
        String::from("K======"),
    ];
    let cmds = into_commands(&args);
    assert_eq!(cmds.len(), 1);
    assert_eq!(cmds[0].key, "K");
    assert_eq!(cmds[0].value, "=====");
}

#[test]
fn unknown_alias_yields_no_commands() {
    let args: Vec<String> = vec![String::from("-x")];
    assert_eq!(into_commands(&args), vec![]);
}

#[test]
fn empty_section_text_is_kept_verbatim_in_command() {
    let args: Vec<String> = vec![String::from("-s"), String::from(""), String::from("K=V")];
    let cmds = into_commands(&args);
    assert_eq!(
        cmds,
        vec![Command {
            action: Action::Put,
            section: String::from(""),
            key: String::from("K"),
            value: String::from("V"),
        }]
    );
}

#[test]
fn flag_followed_by_flag_decodes_as_bare_action() {
    let args: Vec<String> = vec![String::from("-r"), String::from("-r"), String::from("A")];
    let cmds = into_commands(&args);
    assert_eq!(
        cmds,
        vec![
            Command {
                action: Action::Remove,
                section: String::from(""),
                key: String::from(""),
                value: String::from(""),
            },
            Command {
                action: Action::Remove,
                section: String::from("A"),
                key: String::from(""),
                value: String::from(""),
            },
        ]
    );
}
