//! Command-line arguments.

use vstd::prelude::*;

verus! {

/// Cluster management actions
#[derive(Debug, PartialEq, Eq)]
pub enum ClusterAction {
    /// Create a new cluster
    Create { name: String },
    /// Join an existing cluster
    Join { cluster: String, ticket: Option<String> },
    /// Share a cluster with others
    Share { cluster: String },
    /// List available clusters
    List,
}

/// What is asked of the node rooted at a directory.
#[derive(Debug, PartialEq, Eq)]
pub enum NodeAction {
    /// Put a file in the node
    Put { file: String },
    /// Get the contents of a file of the node
    Get { file: String },
    /// List the files of the node
    List,
    /// Mount the node's filesystem at a mount point
    Mount { mountpoint: String },
}

/// The command a command line asks for.
#[derive(Debug, PartialEq, Eq)]
pub enum CliCommand {
    Interactive { config: Option<String> },
    Help,
    Cluster { action: ClusterAction, config: Option<String> },
    Daemon { config: Option<String> },
    Mount { config: Option<String> },
    Unmount { config: Option<String> },
    Node { root: String, action: NodeAction },
}

#[derive(Debug, Clone, Copy, PartialEq, Eq, Structural)]
pub enum InputMode {
    Normal,
    Editing,
}

/// The value of a cluster action.
pub enum ActionView {
    Create(Seq<char>),
    Join(Seq<char>, Option<Seq<char>>),
    Share(Seq<char>),
    List,
}

/// The value of a node action.
pub enum NodeActionView {
    Put(Seq<char>),
    Get(Seq<char>),
    List,
    Mount(Seq<char>),
}

impl View for NodeAction {
    type V = NodeActionView;

    open spec fn view(&self) -> NodeActionView {
        match self {
            NodeAction::Put { file } => NodeActionView::Put(file@),
            NodeAction::Get { file } => NodeActionView::Get(file@),
            NodeAction::List => NodeActionView::List,
            NodeAction::Mount { mountpoint } => NodeActionView::Mount(mountpoint@),
        }
    }
}

/// The value of a command.
pub enum CommandView {
    Interactive(Option<Seq<char>>),
    Help,
    Cluster(ActionView, Option<Seq<char>>),
    Daemon(Option<Seq<char>>),
    Mount(Option<Seq<char>>),
    Unmount(Option<Seq<char>>),
    Node(Seq<char>, NodeActionView),
}

/// The value of an optional string.
pub open spec fn opt_text(o: Option<String>) -> Option<Seq<char>> {
    match o {
        Some(s) => Some(s@),
        None => None,
    }
}

impl View for ClusterAction {
    type V = ActionView;

    open spec fn view(&self) -> ActionView {
        match self {
            ClusterAction::Create { name } => ActionView::Create(name@),
            ClusterAction::Join { cluster, ticket } => ActionView::Join(cluster@, opt_text(*ticket)),
            ClusterAction::Share { cluster } => ActionView::Share(cluster@),
            ClusterAction::List => ActionView::List,
        }
    }
}

impl View for CliCommand {
    type V = CommandView;

    open spec fn view(&self) -> CommandView {
        match self {
            CliCommand::Interactive { config } => CommandView::Interactive(opt_text(*config)),
            CliCommand::Help => CommandView::Help,
            CliCommand::Cluster { action, config } => CommandView::Cluster(action@, opt_text(*config)),
            CliCommand::Daemon { config } => CommandView::Daemon(opt_text(*config)),
            CliCommand::Mount { config } => CommandView::Mount(opt_text(*config)),
            CliCommand::Unmount { config } => CommandView::Unmount(opt_text(*config)),
            CliCommand::Node { root, action } => CommandView::Node(root@, action@),
        }
    }
}

/// Where reading the options stopped: at a help flag, or at the end with
/// the configuration, the positional arguments and the warnings met.
pub enum Scan {
    Help,
    Done(Option<Seq<char>>, Seq<Seq<char>>, Seq<Seq<char>>),
}

/// Reading options from left to right: `--help` or `-h` asks for help,
/// `--config` takes the next argument as configuration (a warning when
/// there is none), anything else is a positional argument.
pub open spec fn scan(
    rest: Seq<Seq<char>>,
    config: Option<Seq<char>>,
    pos: Seq<Seq<char>>,
    warnings: Seq<Seq<char>>,
) -> Scan
    decreases rest.len(),
{
    if rest.len() == 0 {
        Scan::Done(config, pos, warnings)
    } else if rest[0] == "--help"@ || rest[0] == "-h"@ {
        Scan::Help
    } else if rest[0] == "--config"@ {
        if rest.len() >= 2 {
            scan(rest.skip(2), Some(rest[1]), pos, warnings)
        } else {
            scan(rest.skip(1), config, pos, warnings.push("Error: --config requires a value."@))
        }
    } else {
        scan(rest.skip(1), config, pos.push(rest[0]), warnings)
    }
}

/// The command named by the positional arguments `pos`, with the warnings
/// it gives: `cluster`/`clusters` with an action (listing by default),
/// `daemon`, `mount`, `unmount`; none for interactive use; else a node's
/// root followed by `put <file>`, `get <file>`, `list` or
/// `mount <mountpoint>`. A join without a ticket argument takes
/// `env_ticket`.
pub open spec fn command_of(
    pos: Seq<Seq<char>>,
    config: Option<Seq<char>>,
    env_ticket: Option<Seq<char>>,
) -> (CommandView, Seq<Seq<char>>) {
    if pos.len() == 0 {
        (CommandView::Interactive(config), Seq::empty())
    } else if pos[0] == "cluster"@ || pos[0] == "clusters"@ {
        if pos.len() <= 1 {
            (CommandView::Cluster(ActionView::List, config), Seq::empty())
        } else if pos[1] == "create"@ {
            if pos.len() <= 2 {
                (CommandView::Help, seq!["Error: cluster create requires a name"@])
            } else {
                (CommandView::Cluster(ActionView::Create(pos[2]), config), Seq::empty())
            }
        } else if pos[1] == "join"@ {
            if pos.len() <= 2 {
                (CommandView::Help, seq!["Error: cluster join requires a cluster name"@])
            } else {
                (
                    CommandView::Cluster(
                        ActionView::Join(pos[2], if pos.len() > 3 { Some(pos[3]) } else { env_ticket }),
                        config,
                    ),
                    Seq::empty(),
                )
            }
        } else if pos[1] == "share"@ {
            if pos.len() <= 2 {
                (CommandView::Help, seq!["Error: cluster share requires a cluster name"@])
            } else {
                (CommandView::Cluster(ActionView::Share(pos[2]), config), Seq::empty())
            }
        } else {
            (CommandView::Cluster(ActionView::List, config), Seq::empty())
        }
    } else if pos[0] == "daemon"@ {
        (CommandView::Daemon(config), Seq::empty())
    } else if pos[0] == "mount"@ {
        (CommandView::Mount(config), Seq::empty())
    } else if pos[0] == "unmount"@ {
        (CommandView::Unmount(config), Seq::empty())
    } else if pos.len() >= 2 && pos[1] == "list"@ {
        (CommandView::Node(pos[0], NodeActionView::List), Seq::empty())
    } else if pos.len() >= 2 && (pos[1] == "put"@ || pos[1] == "get"@ || pos[1] == "mount"@) {
        if pos.len() <= 2 {
            (CommandView::Help, seq!["Error: "@ + pos[1] + " requires a path"@])
        } else if pos[1] == "put"@ {
            (CommandView::Node(pos[0], NodeActionView::Put(pos[2])), Seq::empty())
        } else if pos[1] == "get"@ {
            (CommandView::Node(pos[0], NodeActionView::Get(pos[2])), Seq::empty())
        } else {
            (CommandView::Node(pos[0], NodeActionView::Mount(pos[2])), Seq::empty())
        }
    } else {
        (CommandView::Help, seq!["Unknown command: "@ + pos[0]])
    }
}

/// The command a command line asks for (the program name first), and the
/// warnings to report.
pub open spec fn parse_args(args: Seq<Seq<char>>, env_ticket: Option<Seq<char>>) -> (CommandView, Seq<Seq<char>>) {
    let options = if args.len() == 0 {
        Seq::empty()
    } else {
        args.skip(1)
    };
    match scan(options, None, Seq::empty(), Seq::empty()) {
        Scan::Help => (CommandView::Help, Seq::empty()),
        Scan::Done(config, pos, warnings) => {
            let (c, w) = command_of(pos, config, env_ticket);
            (c, warnings + w)
        },
    }
}

/// Whether `s` is the text `lit`.
fn is_text(s: &String, lit: &str) -> (r: bool)
    ensures
        r == (s@ == lit@),
{
    let l = String::from_str(lit);
    *s == l
}

/// Whether `s` names what is asked of a node: `put`, `get`, `list` or
/// `mount`.
fn is_node_word(s: &String) -> (r: bool)
    ensures
        r == (s@ == "put"@ || s@ == "get"@ || s@ == "list"@ || s@ == "mount"@),
{
    is_text(s, "put") || is_text(s, "get") || is_text(s, "list") || is_text(s, "mount")
}

/// A copy of an optional string.
fn clone_opt(o: &Option<String>) -> (r: Option<String>)
    ensures
        opt_text(r) == opt_text(*o),
{
    match o {
        Some(s) => Some(s.clone()),
        None => None,
    }
}

/// Parses CLI arguments (the program name first) into a command, with the
/// warnings to report. A join without a ticket argument takes
/// `env_ticket` (the `LIS_TICKET` environment variable).
pub fn process_args(args: &Vec<String>, env_ticket: Option<String>) -> (r: (CliCommand, Vec<String>))
    ensures
        r.0@ == parse_args(args@.map_values(|a: String| a@), opt_text(env_ticket)).0,
        r.1@.map_values(|w: String| w@) == parse_args(args@.map_values(|a: String| a@), opt_text(env_ticket)).1,
{
    let ghost all = args@.map_values(|a: String| a@);
    let mut config: Option<String> = None;
    let mut pos_args: Vec<String> = Vec::new();
    let mut warnings: Vec<String> = Vec::new();
    let mut i: usize = 1;
    if args.len() == 0 {
        i = 0;
    }
    let ghost options = if all.len() == 0 {
        Seq::<Seq<char>>::empty()
    } else {
        all.skip(1)
    };
    proof {
        assert(options =~= all.skip(i as int));
        assert(pos_args@.map_values(|a: String| a@) =~= Seq::<Seq<char>>::empty());
        assert(warnings@.map_values(|a: String| a@) =~= Seq::<Seq<char>>::empty());
    }
    while i < args.len()
        invariant
            all == args@.map_values(|a: String| a@),
            i <= args.len(),
            i >= 1 || args.len() == 0,
            scan(all.skip(i as int), opt_text(config), pos_args@.map_values(|a: String| a@), warnings@.map_values(|a: String| a@))
                == scan(options, None, Seq::empty(), Seq::empty()),
            options == (if all.len() == 0 {
                Seq::<Seq<char>>::empty()
            } else {
                all.skip(1)
            }),
        decreases args.len() - i,
    {
        let ghost rest = all.skip(i as int);
        proof {
            assert(rest[0] == args@[i as int]@);
            assert(rest.skip(1) =~= all.skip(i + 1));
        }
        let arg = &args[i];
        if is_text(arg, "--help") || is_text(arg, "-h") {
            return (CliCommand::Help, Vec::new());
        } else if is_text(arg, "--config") {
            if i + 1 < args.len() {
                proof {
                    assert(rest[1] == args@[i + 1]@);
                    assert(rest.skip(2) =~= all.skip(i + 2));
                }
                config = Some(args[i + 1].clone());
                i = i + 2;
            } else {
                let ghost before = warnings@;
                warnings.push(String::from_str("Error: --config requires a value."));
                proof {
                    assert(warnings@.map_values(|a: String| a@) =~= before.map_values(|a: String| a@).push(
                        "Error: --config requires a value."@,
                    ));
                }
                i = i + 1;
            }
        } else {
            let ghost before = pos_args@;
            pos_args.push(arg.clone());
            proof {
                assert(pos_args@.map_values(|a: String| a@) =~= before.map_values(|a: String| a@).push(rest[0]));
            }
            i = i + 1;
        }
    }
    proof {
        assert(all.skip(i as int) =~= Seq::<Seq<char>>::empty());
    }
    let ghost pos = pos_args@.map_values(|a: String| a@);
    let ghost warned = warnings@.map_values(|a: String| a@);
    if pos_args.len() == 0 {
        proof {
            assert(warned + Seq::<Seq<char>>::empty() =~= warned);
        }
        return (CliCommand::Interactive { config }, warnings);
    }
    proof {
        assert(pos[0] == pos_args@[0]@);
    }
    let first = &pos_args[0];
    let cmd: CliCommand;
    if is_text(first, "cluster") || is_text(first, "clusters") {
        if pos_args.len() <= 1 {
            cmd = CliCommand::Cluster { action: ClusterAction::List, config };
        } else {
            proof {
                assert(pos[1] == pos_args@[1]@);
            }
            let second = &pos_args[1];
            if is_text(second, "create") {
                if pos_args.len() <= 2 {
                    warnings.push(String::from_str("Error: cluster create requires a name"));
                    proof {
                        assert(warnings@.map_values(|a: String| a@) =~= warned + seq!["Error: cluster create requires a name"@]);
                    }
                    return (CliCommand::Help, warnings);
                }
                proof {
                    assert(pos[2] == pos_args@[2]@);
                }
                cmd = CliCommand::Cluster { action: ClusterAction::Create { name: pos_args[2].clone() }, config };
            } else if is_text(second, "join") {
                if pos_args.len() <= 2 {
                    warnings.push(String::from_str("Error: cluster join requires a cluster name"));
                    proof {
                        assert(warnings@.map_values(|a: String| a@) =~= warned + seq!["Error: cluster join requires a cluster name"@]);
                    }
                    return (CliCommand::Help, warnings);
                }
                proof {
                    assert(pos[2] == pos_args@[2]@);
                }
                let cluster = pos_args[2].clone();
                let ticket = if pos_args.len() > 3 {
                    proof {
                        assert(pos[3] == pos_args@[3]@);
                    }
                    Some(pos_args[3].clone())
                } else {
                    clone_opt(&env_ticket)
                };
                cmd = CliCommand::Cluster { action: ClusterAction::Join { cluster, ticket }, config };
            } else if is_text(second, "share") {
                if pos_args.len() <= 2 {
                    warnings.push(String::from_str("Error: cluster share requires a cluster name"));
                    proof {
                        assert(warnings@.map_values(|a: String| a@) =~= warned + seq!["Error: cluster share requires a cluster name"@]);
                    }
                    return (CliCommand::Help, warnings);
                }
                proof {
                    assert(pos[2] == pos_args@[2]@);
                }
                cmd = CliCommand::Cluster { action: ClusterAction::Share { cluster: pos_args[2].clone() }, config };
            } else {
                cmd = CliCommand::Cluster { action: ClusterAction::List, config };
            }
        }
    } else if is_text(first, "daemon") {
        cmd = CliCommand::Daemon { config };
    } else if is_text(first, "mount") {
        cmd = CliCommand::Mount { config };
    } else if is_text(first, "unmount") {
        cmd = CliCommand::Unmount { config };
    } else if pos_args.len() >= 2 && is_node_word(&pos_args[1]) {
        proof {
            assert(pos[1] == pos_args@[1]@);
        }
        let second = &pos_args[1];
        if is_text(second, "list") {
            cmd = CliCommand::Node { root: first.clone(), action: NodeAction::List };
        } else {
            if pos_args.len() <= 2 {
                let mut msg = String::from_str("Error: ");
                msg.append(second.as_str());
                msg.append(" requires a path");
                warnings.push(msg);
                proof {
                    assert(warnings@.map_values(|a: String| a@) =~= warned + seq!["Error: "@ + pos[1] + " requires a path"@]);
                }
                return (CliCommand::Help, warnings);
            }
            proof {
                assert(pos[2] == pos_args@[2]@);
            }
            let arg = pos_args[2].clone();
            if is_text(second, "put") {
                cmd = CliCommand::Node { root: first.clone(), action: NodeAction::Put { file: arg } };
            } else if is_text(second, "get") {
                cmd = CliCommand::Node { root: first.clone(), action: NodeAction::Get { file: arg } };
            } else {
                cmd = CliCommand::Node { root: first.clone(), action: NodeAction::Mount { mountpoint: arg } };
            }
        }
    } else {
        let mut msg = String::from_str("Unknown command: ");
        msg.append(first.as_str());
        warnings.push(msg);
        proof {
            assert(warnings@.map_values(|a: String| a@) =~= warned + seq!["Unknown command: "@ + pos[0]]);
        }
        return (CliCommand::Help, warnings);
    }
    proof {
        assert(warned + Seq::<Seq<char>>::empty() =~= warned);
    }
    (cmd, warnings)
}

/// An argument that is read as a positional argument: neither a help flag
/// nor `--config`.
pub open spec fn plain_arg(a: Seq<char>) -> bool {
    a != "--help"@ && a != "-h"@ && a != "--config"@
}

proof fn lemma_scan_plain(rest: Seq<Seq<char>>, config: Option<Seq<char>>, pos: Seq<Seq<char>>, warnings: Seq<Seq<char>>)
    requires
        forall|i: int| 0 <= i < rest.len() ==> plain_arg(#[trigger] rest[i]),
    ensures
        scan(rest, config, pos, warnings) == Scan::Done(config, pos + rest, warnings),
    decreases rest.len(),
{
    if rest.len() > 0 {
        assert(plain_arg(rest[0]));
        assert forall|i: int| 0 <= i < rest.skip(1).len() implies plain_arg(#[trigger] rest.skip(1)[i]) by {
            assert(rest.skip(1)[i] == rest[i + 1]);
        }
        lemma_scan_plain(rest.skip(1), config, pos.push(rest[0]), warnings);
        assert(pos.push(rest[0]) + rest.skip(1) =~= pos + rest);
    }
}

/// The first word after the program name (and an optional `--config`
/// value) chooses the command, whatever plain arguments follow: `daemon`
/// runs the daemon, `mount` mounts, `unmount` unmounts, each with the
/// configuration given, and none of them warns.
pub proof fn lemma_first_word_chooses_command(
    prog: Seq<char>,
    config: Option<Seq<char>>,
    word: Seq<char>,
    rest: Seq<Seq<char>>,
    env_ticket: Option<Seq<char>>,
)
    requires
        forall|i: int| 0 <= i < rest.len() ==> plain_arg(#[trigger] rest[i]),
    ensures
        ({
            let args = match config {
                Some(c) => seq![prog, "--config"@, c, word] + rest,
                None => seq![prog, word] + rest,
            };
            let (cmd, warnings) = parse_args(args, env_ticket);
            &&& word == "daemon"@ ==> cmd == CommandView::Daemon(config) && warnings.len() == 0
            &&& word == "mount"@ ==> cmd == CommandView::Mount(config) && warnings.len() == 0
            &&& word == "unmount"@ ==> cmd == CommandView::Unmount(config) && warnings.len() == 0
        }),
{
    reveal_strlit("daemon");
    reveal_strlit("mount");
    reveal_strlit("unmount");
    reveal_strlit("--help");
    reveal_strlit("-h");
    reveal_strlit("--config");
    reveal_strlit("cluster");
    reveal_strlit("clusters");
    if word == "daemon"@ || word == "mount"@ || word == "unmount"@ {
        assert(word[0] != '-');
        assert("--help"@[0] == '-' && "-h"@[0] == '-' && "--config"@[0] == '-');
        assert(plain_arg(word));
        assert(word != "cluster"@ && word != "clusters"@) by {
            assert(word[0] != "cluster"@[0] || word.len() != "cluster"@.len());
            assert(word.len() != "clusters"@.len());
        }
        let tail = seq![word] + rest;
        assert forall|i: int| 0 <= i < tail.len() implies plain_arg(#[trigger] tail[i]) by {
            if i > 0 {
                assert(tail[i] == rest[i - 1]);
            }
        }
        match config {
            Some(c) => {
                let args = seq![prog, "--config"@, c, word] + rest;
                let opts = args.skip(1);
                assert(opts[0] == "--config"@);
                assert(opts.skip(2) =~= tail);
                lemma_scan_plain(tail, Some(c), Seq::empty(), Seq::empty());
                assert(Seq::<Seq<char>>::empty() + tail =~= tail);
            },
            None => {
                let args = seq![prog, word] + rest;
                assert(args.skip(1) =~= tail);
                lemma_scan_plain(tail, None, Seq::empty(), Seq::empty());
                assert(Seq::<Seq<char>>::empty() + tail =~= tail);
            },
        }
        assert(tail[0] == word);
    }
}

/// `cluster` followed by an action and a name asks for that action on that
/// cluster: `create` creates it, `share` shares it, `join` joins it with
/// the ticket given after the name, else with `env_ticket`; `cluster`
/// alone lists the clusters. None of them warns.
pub proof fn lemma_cluster_commands(
    prog: Seq<char>,
    action: Seq<char>,
    name: Seq<char>,
    ticket: Option<Seq<char>>,
    env_ticket: Option<Seq<char>>,
)
    requires
        plain_arg(action),
        plain_arg(name),
        ticket matches Some(t) ==> plain_arg(t),
    ensures
        parse_args(seq![prog, "cluster"@], env_ticket) == (CommandView::Cluster(ActionView::List, None), Seq::<Seq<char>>::empty()),
        ({
            let args = match ticket {
                Some(t) => seq![prog, "cluster"@, action, name, t],
                None => seq![prog, "cluster"@, action, name],
            };
            let (cmd, warnings) = parse_args(args, env_ticket);
            &&& warnings.len() == 0
            &&& action == "create"@ ==> cmd == CommandView::Cluster(ActionView::Create(name), None)
            &&& action == "share"@ ==> cmd == CommandView::Cluster(ActionView::Share(name), None)
            &&& action == "join"@ ==> cmd == CommandView::Cluster(ActionView::Join(name, match ticket {
                Some(t) => Some(t),
                None => env_ticket,
            }), None)
        }),
{
    reveal_strlit("cluster");
    reveal_strlit("--help");
    reveal_strlit("-h");
    reveal_strlit("--config");
    reveal_strlit("create");
    reveal_strlit("share");
    reveal_strlit("join");
    assert("create"@ != "share"@ && "create"@ != "join"@ && "share"@ != "join"@) by {
        assert("create"@[0] != "share"@[0] && "create"@.len() != "join"@.len() && "share"@.len() != "join"@.len());
    }
    let c = "cluster"@;
    assert(c[0] != '-');
    assert("--help"@[0] == '-' && "-h"@[0] == '-' && "--config"@[0] == '-');
    assert(plain_arg(c));
    let one = seq![c];
    assert(seq![prog, c].skip(1) =~= one);
    lemma_scan_plain(one, None, Seq::empty(), Seq::empty());
    assert(Seq::<Seq<char>>::empty() + one =~= one);
    let tail = match ticket {
        Some(t) => seq![c, action, name, t],
        None => seq![c, action, name],
    };
    let args = match ticket {
        Some(t) => seq![prog, c, action, name, t],
        None => seq![prog, c, action, name],
    };
    assert(args.skip(1) =~= tail);
    assert forall|i: int| 0 <= i < tail.len() implies plain_arg(#[trigger] tail[i]) by {}
    lemma_scan_plain(tail, None, Seq::empty(), Seq::empty());
    assert(Seq::<Seq<char>>::empty() + tail =~= tail);
}

} // verus!
