use tunrs::addr;
use tunrs::cli::{parse_addr, Args, Argument, Exit, RouteTable, HELP, SOCKET_HELP, VERSION};
use tunrs::text::{contains_text, decimal_text};

fn line(args: &[&str]) -> Vec<String> {
    args.iter().map(|a| a.to_string()).collect()
}

fn parse(args: &[&str]) -> Result<Args, Exit<String>> {
    Args::parse(&line(args))
}

/// Arguments of which those in `good` spell socket addresses.
fn resolved(args: &[&str], good: &[(&str, &str)]) -> Vec<Argument> {
    args.iter()
        .map(|a| Argument {
            text: a.to_string(),
            reading: match good.iter().find(|(text, _)| text == a) {
                Some((_, canonical)) => Ok(canonical.to_string()),
                None => Err("invalid socket address syntax".to_string()),
            },
        })
        .collect()
}

fn pair(a: &str, b: &str) -> [String; 2] {
    [a.to_string(), b.to_string()]
}

#[test]
fn decimal_text_writes_every_port() {
    for n in 0..=u16::MAX {
        assert_eq!(decimal_text(n), n.to_string());
    }
}

#[test]
fn contains_text_finds_words() {
    assert!(contains_text("connection closed", "closed"));
    assert!(contains_text("closed", "closed"));
    assert!(contains_text("ccloclosed by peer", "closed"));
    assert!(contains_text("\u{e9}t\u{e9} closed", "closed"));
    assert!(contains_text("", ""));
    assert!(!contains_text("close", "closed"));
    assert!(!contains_text("Closed", "closed"));
    assert!(!contains_text("broken pipe", "closed"));
}

#[test]
fn parse_port_agrees_with_std() {
    for n in 0..=u16::MAX {
        assert_eq!(addr::parse_port(&n.to_string()), Some(n));
    }
    for s in [
        "", "+", "-", "+80", "++80", "-80", "-0", "0", "00080", "65535", "65536", "+65535",
        "+65536", "99999999999999999999", "000000000000000000080", " 80", "80 ", "8_0", "0x50",
        "80a", "a80", "\u{663}", "8\u{663}", "127.0.0.1:80",
    ] {
        assert_eq!(addr::parse_port(s), s.parse::<u16>().ok(), "{s:?}");
    }
}

#[test]
fn verbatim_addresses() {
    assert_eq!(parse_addr("3000".to_string()), Ok("0.0.0.0:3000".to_string()));
    assert_eq!(parse_addr("+0080".to_string()), Ok("0.0.0.0:80".to_string()));
    assert_eq!(parse_addr("65535".to_string()), Ok("0.0.0.0:65535".to_string()));
    assert_eq!(parse_addr("65536".to_string()), Ok("65536".to_string()));
    assert_eq!(parse_addr("localhost:80".to_string()), Ok("localhost:80".to_string()));
    assert_eq!(parse_addr("".to_string()), Ok("".to_string()));
}

#[test]
fn verbatim_reading_is_settled() {
    for s in ["22", "+7", "10.0.0.1:80", "", "host"] {
        let once = parse_addr(s.to_string()).unwrap();
        assert_eq!(parse_addr(once.clone()), Ok(once));
    }
}

#[test]
fn resolved_addresses() {
    let reading: Result<String, String> = Ok("[::1]:80".to_string());
    assert_eq!(
        addr::parse_addr("[0:0:0:0:0:0:0:1]:80".to_string(), reading),
        Ok("[::1]:80".to_string())
    );
    let none: Result<String, String> = Err("no address".to_string());
    assert_eq!(addr::parse_addr("80".to_string(), none), Ok("0.0.0.0:80".to_string()));
    let none: Result<String, String> = Err("no address".to_string());
    assert_eq!(addr::parse_addr("host:80".to_string(), none), Err("no address".to_string()));
}

#[test]
fn client_mode() {
    let args = parse(&["--tunn", "1.2.3.4:9000"]).unwrap();
    assert_eq!(args.tunn, vec!["1.2.3.4:9000"]);
    assert!(args.route_table.is_empty());
}

#[test]
fn server_mode() {
    let args = parse(&[
        "--route", "0.0.0.0:9000", "3000", "10.0.0.1:80", "127.0.0.1:4000", "22",
    ])
    .unwrap();
    assert!(args.tunn.is_empty());
    assert_eq!(
        args.route_table,
        vec![RouteTable {
            tunn: "0.0.0.0:9000".to_string(),
            pairs: vec![
                pair("0.0.0.0:3000", "10.0.0.1:80"),
                pair("127.0.0.1:4000", "0.0.0.0:22"),
            ],
        }]
    );
}

#[test]
fn socket_addresses_alone() {
    let good = [("1.2.3.4:9000", "1.2.3.4:9000"), ("[0::1]:80", "[::1]:80")];
    let args = Args::parse_resolved(&resolved(&["-t", "1.2.3.4:9000", "-t", "[0::1]:80"], &good));
    assert_eq!(args.unwrap().tunn, vec!["1.2.3.4:9000", "[::1]:80"]);

    let bad = Args::parse_resolved(&resolved(&["-t", "localhost:80"], &good)).unwrap_err();
    assert_eq!(bad, Exit::InvalidAddress("invalid socket address syntax".to_string()));
    assert_eq!(
        bad.message(SOCKET_HELP),
        "error: invalid address: invalid socket address syntax"
    );

    for args in [
        &["-r", "localhost:1", "1", "2"][..],
        &["-r", "1", "localhost:1", "2"][..],
        &["-r", "1", "2", "localhost:1"][..],
        &["-r", "1", "2", "3", "4", "localhost:1"][..],
    ] {
        let exit = Args::parse_resolved(&resolved(args, &good)).unwrap_err();
        assert_eq!(exit, Exit::InvalidAddress("invalid socket address syntax".to_string()));
    }

    let exit = Args::parse_resolved(&resolved(&["-r", "1", "2", "3", "localhost:1"], &good));
    assert_eq!(exit, Err(Exit::MissingPair));
}

#[test]
fn missing_operands() {
    assert_eq!(parse(&["--tunn"]), Err(Exit::MissingTunn));
    assert_eq!(parse(&["-t", "1", "-t"]), Err(Exit::MissingTunn));
    assert_eq!(parse(&["--route"]), Err(Exit::MissingRoute));
    assert_eq!(parse(&["-r", "1"]), Err(Exit::EmptyRoute));
    assert_eq!(parse(&["-r", "1", "-t", "2"]), Err(Exit::EmptyRoute));
    assert_eq!(parse(&["-r", "1", "2"]), Err(Exit::MissingPair));
    assert_eq!(parse(&["-r", "1", "2", "3", "4"]), Err(Exit::MissingPair));
    assert_eq!(parse(&[]), Err(Exit::NothingToRun));
}

#[test]
fn unknown_arguments() {
    assert_eq!(parse(&["--tunnel", "80"]), Err(Exit::UnknownArgument("--tunnel".to_string())));
    assert_eq!(parse(&["80"]), Err(Exit::UnknownArgument("80".to_string())));
    assert_eq!(parse(&[""]), Err(Exit::UnknownArgument("".to_string())));
    assert_eq!(parse(&["-t", "1", "-x"]), Err(Exit::UnknownArgument("-x".to_string())));
}

#[test]
fn dashes_among_operands() {
    let args = parse(&["-t", "-t"]).unwrap();
    assert_eq!(args.tunn, vec!["-t"]);

    let args = parse(&["-r", "-h", "1", "-V"]).unwrap();
    assert_eq!(args.route_table[0].tunn, "-h");
    assert_eq!(args.route_table[0].pairs, vec![pair("0.0.0.0:1", "-V")]);
}

#[test]
fn help_and_version() {
    assert_eq!(parse(&["--help"]), Err(Exit::Help));
    assert_eq!(parse(&["-h", "--nonsense"]), Err(Exit::Help));
    assert_eq!(parse(&["-t", "1", "-h"]), Err(Exit::Help));
    assert_eq!(parse(&["--version", "-h"]), Err(Exit::Version));
    assert_eq!(parse(&["-r", "1", "2", "3", "-V"]), Err(Exit::Version));
    assert_eq!(parse(&["--nonsense", "-h"]), Err(Exit::UnknownArgument("--nonsense".to_string())));
}

#[test]
fn messages_and_statuses() {
    let cases: Vec<(Exit<String>, &str, i32)> = vec![
        (Exit::Help, HELP, 0),
        (Exit::Version, "tunrs 0.1.2 [https://github.com/nlkli/tunrs]", 0),
        (Exit::MissingTunn, "error: --tunn requires <ADDR>", 1),
        (Exit::MissingRoute, "error: --route requires <TUNN> <A> <B> [...]", 1),
        (Exit::MissingPair, "error: --route requires pairs <A> <B>", 1),
        (Exit::EmptyRoute, "error: --route requires at least one pair <A> <B>", 1),
        (Exit::InvalidAddress("why".to_string()), "error: invalid address: why", 1),
        (Exit::UnknownArgument("-x".to_string()), "error: unknown argument '-x'", 1),
        (Exit::NothingToRun, "error: specify --tunn or --route", 1),
    ];
    for (exit, message, status) in cases {
        assert_eq!(exit.message(HELP), message);
        assert_eq!(exit.status(), status);
        assert_eq!(exit.on_stdout(), status == 0);
    }
    assert_eq!(Exit::Help.message(SOCKET_HELP), SOCKET_HELP);
    assert!(VERSION.starts_with("tunrs 0.1.2"));
    assert!(HELP.contains("3000           10.0.0.1:80"));
    assert!(SOCKET_HELP.contains("127.0.0.1:3000 10.0.0.1:80"));
}

#[test]
fn command_lines_add_up() {
    let xs = ["-t", "1", "-r", "2", "3", "4"];
    let ys = ["--route", "5", "6", "7", "8", "9", "--tunn", "10"];
    let both: Vec<&str> = xs.iter().chain(ys.iter()).copied().collect();
    let (x, y, sum) = (parse(&xs).unwrap(), parse(&ys).unwrap(), parse(&both).unwrap());
    assert_eq!(sum.tunn, [x.tunn, y.tunn].concat());
    assert_eq!(sum.route_table.len(), 2);
    assert_eq!(sum.route_table[0], x.route_table[0]);
    assert_eq!(sum.route_table[1], y.route_table[0]);
}

#[test]
fn tunnels_and_routes_commute() {
    assert_eq!(
        parse(&["-t", "1", "-t", "2", "-r", "3", "4", "5"]),
        parse(&["-r", "3", "4", "5", "-t", "1", "-t", "2"])
    );
}

#[test]
fn spellings_agree() {
    assert_eq!(parse(&["-t", "1"]), parse(&["--tunn", "1"]));
    assert_eq!(parse(&["-r", "1", "2", "3"]), parse(&["--route", "1", "2", "3"]));
    assert_eq!(parse(&["-h"]), parse(&["--help"]));
    assert_eq!(parse(&["-V"]), parse(&["--version"]));
}

#[test]
fn command_line_reads_back() {
    let args = Args {
        tunn: line(&["a:1", "b:2"]),
        route_table: vec![
            RouteTable { tunn: "c:3".to_string(), pairs: vec![pair("d:4", "e:5")] },
            RouteTable {
                tunn: "f:6".to_string(),
                pairs: vec![pair("g:7", "h:8"), pair("i:9", "j:10")],
            },
        ],
    };
    let written = [
        "--tunn", "a:1", "--tunn", "b:2", "--route", "c:3", "d:4", "e:5", "--route", "f:6", "g:7",
        "h:8", "i:9", "j:10",
    ];
    assert_eq!(parse(&written), Ok(args));
}

#[test]
fn what_was_read_can_be_written() {
    let args = parse(&["-r", "9000", "3000", "22", "-t", "+80", "-t", "-t"]).unwrap();
    let mut written: Vec<&str> = Vec::new();
    for t in &args.tunn {
        written.extend(["--tunn", t]);
    }
    for table in &args.route_table {
        written.extend(["--route", &table.tunn]);
        for [a, b] in &table.pairs {
            written.extend([a.as_str(), b.as_str()]);
        }
    }
    assert_eq!(
        written,
        ["--tunn", "0.0.0.0:80", "--tunn", "-t", "--route", "0.0.0.0:9000", "0.0.0.0:3000", "0.0.0.0:22"]
    );
    assert_eq!(parse(&written).unwrap(), args);
}

#[test]
fn ports_are_told_apart() {
    let a = parse_addr("80".to_string()).unwrap();
    let b = parse_addr("8080".to_string()).unwrap();
    assert_ne!(a, b);
    assert_eq!(addr::parse_port(&a), None);
}
