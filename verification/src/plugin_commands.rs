//! The `plugin` command line: its errors and the trust options a user gives
//! when adding a plugin.
use vstd::prelude::*;

use crate::plugin_cli::PluginCliError;
use crate::plugin_permissions::PermissionPolicyError;
use crate::plugins::{permission_named, Permission};
use crate::text::{concat3, str_equal};

verus! {

/// Why a `plugin` command failed.
#[derive(Debug, Clone)]
pub enum CommandError {
    Registry(String),
    Manifest(String),
    Local(String),
    Policy(PermissionPolicyError),
    Control(PluginCliError),
    GitHub(String),
    Usage,
    PluginTrustRequired(String),
    UnknownPermission(String),
}

impl CommandError {
    /// The error as shown to a user.
    pub open spec fn spec_describe(self) -> Seq<char> {
        match self {
            CommandError::Registry(m) => m@,
            CommandError::Manifest(m) => m@,
            CommandError::Local(m) => m@,
            CommandError::Policy(e) => e.message@,
            CommandError::Control(e) => e.spec_describe(),
            CommandError::GitHub(m) => m@,
            CommandError::Usage => "unrecognized plugin arguments; use codlet plugin list, preview, add, github, permissions, revoke, remove, enable, disable, reload, or operation"@,
            CommandError::PluginTrustRequired(id) => "local plugin "@ + id@
                + " was inspected but not registered; explicitly supply --trust and --grant for each requested permission"@,
            CommandError::UnknownPermission(p) => "unrecognized plugin permission "@ + p@,
        }
    }

    /// The error as shown to a user.
    pub fn describe(&self) -> (r: String)
        ensures
            r@ == self.spec_describe(),
    {
        proof {
            reveal_strlit("");
        }
        match self {
            CommandError::Registry(m) => m.clone(),
            CommandError::Manifest(m) => m.clone(),
            CommandError::Local(m) => m.clone(),
            CommandError::Policy(e) => e.message.clone(),
            CommandError::Control(e) => e.describe(),
            CommandError::GitHub(m) => m.clone(),
            CommandError::Usage => "unrecognized plugin arguments; use codlet plugin list, preview, add, github, permissions, revoke, remove, enable, disable, reload, or operation".to_string(),
            CommandError::PluginTrustRequired(id) => concat3(
                "local plugin ",
                id.as_str(),
                " was inspected but not registered; explicitly supply --trust and --grant for each requested permission",
            ),
            CommandError::UnknownPermission(p) => {
                let r = concat3("unrecognized plugin permission ", p.as_str(), "");
                proof {
                    assert(r@ =~= self.spec_describe());
                }
                r
            },
        }
    }
}

/// The trust a user states on the command line when adding a plugin.
#[derive(Debug, Clone)]
pub struct PluginTrustOptions {
    pub trusted: bool,
    pub enable: bool,
    pub json: bool,
    pub grants: Vec<Permission>,
    pub read_roots: Vec<String>,
    pub network_origins: Vec<String>,
    pub executables: Vec<String>,
    pub write_roots: Vec<String>,
    pub watch_roots: Vec<String>,
    pub cwd_roots: Vec<String>,
    pub env_keys: Vec<String>,
    pub shortcuts: Vec<String>,
}

/// Spec view of trust options.
pub struct TrustOptionsView {
    pub trusted: bool,
    pub enable: bool,
    pub json: bool,
    pub grants: Seq<Permission>,
    pub read_roots: Seq<Seq<char>>,
    pub network_origins: Seq<Seq<char>>,
    pub executables: Seq<Seq<char>>,
    pub write_roots: Seq<Seq<char>>,
    pub watch_roots: Seq<Seq<char>>,
    pub cwd_roots: Seq<Seq<char>>,
    pub env_keys: Seq<Seq<char>>,
    pub shortcuts: Seq<Seq<char>>,
}

impl View for PluginTrustOptions {
    type V = TrustOptionsView;

    open spec fn view(&self) -> TrustOptionsView {
        TrustOptionsView {
            trusted: self.trusted,
            enable: self.enable,
            json: self.json,
            grants: self.grants@,
            read_roots: self.read_roots.deep_view(),
            network_origins: self.network_origins.deep_view(),
            executables: self.executables.deep_view(),
            write_roots: self.write_roots.deep_view(),
            watch_roots: self.watch_roots.deep_view(),
            cwd_roots: self.cwd_roots.deep_view(),
            env_keys: self.env_keys.deep_view(),
            shortcuts: self.shortcuts.deep_view(),
        }
    }
}

/// Why trust options were refused.
pub enum ArgumentProblem {
    Usage,
    UnknownPermission(Seq<char>),
}

/// Options with nothing stated.
pub open spec fn no_options() -> TrustOptionsView {
    TrustOptionsView {
        trusted: false,
        enable: false,
        json: false,
        grants: Seq::empty(),
        read_roots: Seq::empty(),
        network_origins: Seq::empty(),
        executables: Seq::empty(),
        write_roots: Seq::empty(),
        watch_roots: Seq::empty(),
        cwd_roots: Seq::empty(),
        env_keys: Seq::empty(),
        shortcuts: Seq::empty(),
    }
}

/// The options after reading the remaining arguments `args` on top of `o`.
/// `--trust`, `--enable` and `--json` may each be given once; `--grant`
/// takes a permission name, once per permission; the scope flags each take a
/// value; anything else is a usage error.
pub open spec fn parse_from(args: Seq<Seq<char>>, o: TrustOptionsView) -> Result<TrustOptionsView, ArgumentProblem>
    decreases args.len(),
{
    if args.len() == 0 {
        Ok(o)
    } else {
        let a = args[0];
        let rest = args.drop_first();
        if a == "--trust"@ && !o.trusted {
            parse_from(rest, TrustOptionsView { trusted: true, ..o })
        } else if a == "--enable"@ && !o.enable {
            parse_from(rest, TrustOptionsView { enable: true, ..o })
        } else if a == "--json"@ && !o.json {
            parse_from(rest, TrustOptionsView { json: true, ..o })
        } else if a == "--grant"@ || a == "--read-root"@ || a == "--network-origin"@ || a == "--write-root"@ || a
            == "--watch-root"@ || a == "--cwd-root"@ || a == "--env-key"@ || a == "--shortcut"@ || a == "--executable"@ {
            if rest.len() == 0 {
                Err(ArgumentProblem::Usage)
            } else {
                let v = rest[0];
                let next = rest.drop_first();
                if a == "--grant"@ {
                    match permission_named(v) {
                        None => Err(ArgumentProblem::UnknownPermission(v)),
                        Some(p) => if o.grants.contains(p) {
                            Err(ArgumentProblem::Usage)
                        } else {
                            parse_from(next, TrustOptionsView { grants: o.grants.push(p), ..o })
                        },
                    }
                } else if a == "--read-root"@ {
                    parse_from(next, TrustOptionsView { read_roots: o.read_roots.push(v), ..o })
                } else if a == "--network-origin"@ {
                    parse_from(next, TrustOptionsView { network_origins: o.network_origins.push(v), ..o })
                } else if a == "--write-root"@ {
                    parse_from(next, TrustOptionsView { write_roots: o.write_roots.push(v), ..o })
                } else if a == "--watch-root"@ {
                    parse_from(next, TrustOptionsView { watch_roots: o.watch_roots.push(v), ..o })
                } else if a == "--cwd-root"@ {
                    parse_from(next, TrustOptionsView { cwd_roots: o.cwd_roots.push(v), ..o })
                } else if a == "--env-key"@ {
                    parse_from(next, TrustOptionsView { env_keys: o.env_keys.push(v), ..o })
                } else if a == "--shortcut"@ {
                    parse_from(next, TrustOptionsView { shortcuts: o.shortcuts.push(v), ..o })
                } else {
                    parse_from(next, TrustOptionsView { executables: o.executables.push(v), ..o })
                }
            }
        } else {
            Err(ArgumentProblem::Usage)
        }
    }
}

fn push_value(v: &mut Vec<String>, value: &String)
    ensures
        final(v).deep_view() == old(v).deep_view().push(value@),
{
    let ghost before = v.deep_view();
    v.push(value.clone());
    proof {
        assert(v.deep_view() =~= before.push(value@));
    }
}

/// The trust options the arguments state, which are all UTF-8.
pub fn parse_plugin_trust_options(arguments: &Vec<String>) -> (r: Result<PluginTrustOptions, CommandError>)
    ensures
        match parse_from(arguments.deep_view(), no_options()) {
            Ok(o) => r matches Ok(x) && x@ == o,
            Err(ArgumentProblem::Usage) => r matches Err(CommandError::Usage),
            Err(ArgumentProblem::UnknownPermission(n)) => r matches Err(CommandError::UnknownPermission(s)) && s@ == n,
        },
{
    let ghost args = arguments.deep_view();
    let mut o = PluginTrustOptions {
        trusted: false,
        enable: false,
        json: false,
        grants: Vec::new(),
        read_roots: Vec::new(),
        network_origins: Vec::new(),
        executables: Vec::new(),
        write_roots: Vec::new(),
        watch_roots: Vec::new(),
        cwd_roots: Vec::new(),
        env_keys: Vec::new(),
        shortcuts: Vec::new(),
    };
    proof {
        assert(o@ == no_options()) by {
            assert(o.read_roots.deep_view() =~= Seq::<Seq<char>>::empty());
            assert(o.network_origins.deep_view() =~= Seq::<Seq<char>>::empty());
            assert(o.executables.deep_view() =~= Seq::<Seq<char>>::empty());
            assert(o.write_roots.deep_view() =~= Seq::<Seq<char>>::empty());
            assert(o.watch_roots.deep_view() =~= Seq::<Seq<char>>::empty());
            assert(o.cwd_roots.deep_view() =~= Seq::<Seq<char>>::empty());
            assert(o.env_keys.deep_view() =~= Seq::<Seq<char>>::empty());
            assert(o.shortcuts.deep_view() =~= Seq::<Seq<char>>::empty());
        }
        assert(args.skip(0) =~= args);
    }
    let n = arguments.len();
    let mut i: usize = 0;
    while i < n
        invariant
            n == args.len(),
            args == arguments.deep_view(),
            i <= n,
            parse_from(args, no_options()) == parse_from(args.skip(i as int), o@),
        decreases n - i,
    {
        let a = arguments[i].as_str();
        let ghost rest = args.skip(i + 1);
        proof {
            assert(args.skip(i as int)[0] == a@);
            assert(args.skip(i as int).drop_first() =~= rest);
        }
        if str_equal(a, "--trust") && !o.trusted {
            o.trusted = true;
            i = i + 1;
        } else if str_equal(a, "--enable") && !o.enable {
            o.enable = true;
            i = i + 1;
        } else if str_equal(a, "--json") && !o.json {
            o.json = true;
            i = i + 1;
        } else if str_equal(a, "--grant") || str_equal(a, "--read-root") || str_equal(a, "--network-origin") || str_equal(
            a,
            "--write-root",
        ) || str_equal(a, "--watch-root") || str_equal(a, "--cwd-root") || str_equal(a, "--env-key") || str_equal(
            a,
            "--shortcut",
        ) || str_equal(a, "--executable") {
            if i + 1 >= n {
                return Err(CommandError::Usage);
            }
            let value = &arguments[i + 1];
            proof {
                assert(rest[0] == value@);
                assert(rest.drop_first() =~= args.skip(i + 2));
            }
            if str_equal(a, "--grant") {
                match Permission::from_name(value.as_str()) {
                    None => {
                        return Err(CommandError::UnknownPermission(value.clone()));
                    },
                    Some(p) => {
                        if crate::plugins::contains_permission(&o.grants, p) {
                            return Err(CommandError::Usage);
                        }
                        o.grants.push(p);
                    },
                }
            } else if str_equal(a, "--read-root") {
                push_value(&mut o.read_roots, value);
            } else if str_equal(a, "--network-origin") {
                push_value(&mut o.network_origins, value);
            } else if str_equal(a, "--write-root") {
                push_value(&mut o.write_roots, value);
            } else if str_equal(a, "--watch-root") {
                push_value(&mut o.watch_roots, value);
            } else if str_equal(a, "--cwd-root") {
                push_value(&mut o.cwd_roots, value);
            } else if str_equal(a, "--env-key") {
                push_value(&mut o.env_keys, value);
            } else if str_equal(a, "--shortcut") {
                push_value(&mut o.shortcuts, value);
            } else {
                push_value(&mut o.executables, value);
            }
            i = i + 2;
        } else {
            return Err(CommandError::Usage);
        }
    }
    proof {
        assert(args.skip(n as int) =~= Seq::<Seq<char>>::empty());
    }
    Ok(o)
}

} // verus!
