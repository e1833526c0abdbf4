//! The `schema` subcommand every GraphQL application exposes: write the rendered
//! SDL to the committed file, or check the committed file for drift.
//!
//! The arguments after the subcommand are none (write to the default path),
//! `--check` (compare instead of writing), or a non-flag token (another path).
//! Any other flag is refused.

use vstd::prelude::*;
use vstd::string::StringExecFns;
use vstd::string::StrSliceExecFns;

verus! {

/// What the arguments ask for.
pub struct SchemaCommand {
    pub check: bool,
    pub path_override: Option<String>,
}

/// The command the arguments ask for, read left to right: `--check` sets the
/// check, a token not starting with `-` overrides the path (the last one wins),
/// and the first other token is refused.
pub open spec fn parsed(args: Seq<Seq<char>>) -> Result<(bool, Option<Seq<char>>), Seq<char>>
    decreases args.len(),
{
    if args.len() == 0 {
        Ok((false, None))
    } else {
        match parsed(args.drop_last()) {
            Err(bad) => Err(bad),
            Ok((check, path)) => {
                let a = args.last();
                if a == "--check"@ {
                    Ok((true, path))
                } else if a.len() == 0 || a[0] != '-' {
                    Ok((check, Some(a)))
                } else {
                    Err(a)
                }
            },
        }
    }
}

/// An argument that names a path: one that does not start with `-`.
pub open spec fn is_path_arg(a: Seq<char>) -> bool {
    a.len() == 0 || a[0] != '-'
}

/// The position of the last path argument of `args`; -1 when there is none.
pub open spec fn last_path_arg(args: Seq<Seq<char>>) -> int
    decreases args.len(),
{
    if args.len() == 0 {
        -1
    } else if is_path_arg(args.last()) {
        args.len() - 1
    } else {
        last_path_arg(args.drop_last())
    }
}

proof fn lemma_last_path_arg_bounded(args: Seq<Seq<char>>)
    ensures
        -1 <= last_path_arg(args) < args.len(),
    decreases args.len(),
{
    if args.len() > 0 {
        lemma_last_path_arg_bounded(args.drop_last());
    }
}

/// What accepted arguments ask for, whatever their order: the check runs exactly
/// when some argument is `--check`, and the path is the last argument naming one
/// (the default when none does). So `--check` never changes the path, and a path
/// never changes whether the check runs.
pub proof fn lemma_schema_args_meaning(args: Seq<Seq<char>>)
    ensures
        parsed(args) matches Ok((check, path)) ==> (check <==> exists|i: int|
            0 <= i < args.len() && #[trigger] args[i] == "--check"@) && path == (if last_path_arg(args) < 0 {
            None
        } else {
            Some(args[last_path_arg(args)])
        }),
    decreases args.len(),
{
    reveal_strlit("--check");
    assert(!is_path_arg("--check"@));
    if args.len() > 0 {
        let init = args.drop_last();
        let n = args.len() - 1;
        lemma_schema_args_meaning(init);
        lemma_last_path_arg_bounded(init);
        if let Ok((check, path)) = parsed(args) {
            let lp = last_path_arg(init);
            if lp >= 0 {
                assert(args[lp] == init[lp]);
            }
            assert(args.last() == args[n]);
            if args[n] == "--check"@ {
                assert(check);
            } else {
                assert((exists|i: int| 0 <= i < args.len() && #[trigger] args[i] == "--check"@) <==> (exists|i: int|
                    0 <= i < init.len() && #[trigger] init[i] == "--check"@)) by {
                    if exists|i: int| 0 <= i < args.len() && #[trigger] args[i] == "--check"@ {
                        let w = choose|i: int| 0 <= i < args.len() && #[trigger] args[i] == "--check"@;
                        assert(w < n);
                        assert(init[w] == args[w]);
                    }
                    if exists|i: int| 0 <= i < init.len() && #[trigger] init[i] == "--check"@ {
                        let w = choose|i: int| 0 <= i < init.len() && #[trigger] init[i] == "--check"@;
                        assert(args[w] == init[w]);
                    }
                }
            }
        }
    }
}

/// `--check` after a path keeps that path: for every path argument `p`, the
/// arguments `p --check` run the check on `p`.
pub proof fn lemma_check_keeps_the_given_path(p: Seq<char>)
    requires
        is_path_arg(p),
    ensures
        parsed(seq![p, "--check"@]) == Ok::<(bool, Option<Seq<char>>), Seq<char>>((true, Some(p))),
{
    reveal_strlit("--check");
    let args = seq![p, "--check"@];
    assert(args.drop_last() =~= seq![p]);
    assert(seq![p].drop_last() =~= Seq::<Seq<char>>::empty());
    assert(p != "--check"@);
    assert(parsed(Seq::<Seq<char>>::empty()) == Ok::<(bool, Option<Seq<char>>), Seq<char>>((false, None)));
    assert(parsed(seq![p]) == Ok::<(bool, Option<Seq<char>>), Seq<char>>((false, Some(p))));
    assert(args.last() == "--check"@);
}

/// The message an unknown argument is refused with.
pub open spec fn unknown_argument_text(arg: Seq<char>) -> Seq<char> {
    "unknown argument `"@ + arg + "` (expected `--check` or a path)"@
}

fn is_check_flag(a: &str) -> (b: bool)
    ensures
        b == (a@ == "--check"@),
{
    let flag = "--check";
    proof {
        reveal_strlit("--check");
    }
    let n = a.unicode_len();
    if n != 7 {
        return false;
    }
    let mut i: usize = 0;
    while i < 7
        invariant
            n == a@.len(),
            n == 7,
            flag@ == "--check"@,
            flag@.len() == 7,
            i <= 7,
            forall|j: int| 0 <= j < i ==> a@[j] == flag@[j],
        decreases 7 - i,
    {
        if a.get_char(i) != flag.get_char(i) {
            return false;
        }
        i = i + 1;
    }
    assert(a@ =~= flag@);
    true
}

/// Read the subcommand's arguments.
pub fn parse_schema_args(args: Vec<String>) -> (r: Result<SchemaCommand, String>)
    ensures
        match parsed(args@.map_values(|s: String| s@)) {
            Ok((check, path)) => r matches Ok(c) && c.check == check && match path {
                None => c.path_override is None,
                Some(p) => c.path_override matches Some(q) && q@ == p,
            },
            Err(bad) => r matches Err(m) && m@ == unknown_argument_text(bad),
        },
{
    let ghost views = args@.map_values(|s: String| s@);
    let ghost orig = args@;
    let mut rest = args;
    let n = rest.len();
    let mut check = false;
    let mut path_override: Option<String> = None;
    let mut i: usize = 0;
    while i < n
        invariant
            orig == args@,
            n == orig.len(),
            views == orig.map_values(|s: String| s@),
            i <= n,
            rest@ == orig.skip(i as int),
            parsed(views.take(i as int)) matches Ok((c, p)) && c == check && match p {
                None => path_override is None,
                Some(pv) => path_override matches Some(q) && q@ == pv,
            },
        decreases n - i,
    {
        let arg = rest.remove(0);
        proof {
            assert(arg == orig[i as int]);
            assert(rest@ =~= orig.skip(i + 1));
            assert(views.take(i + 1).drop_last() =~= views.take(i as int));
            assert(views.take(i + 1).last() == arg@);
        }
        if is_check_flag(arg.as_str()) {
            check = true;
        } else if arg.as_str().unicode_len() == 0 || arg.as_str().get_char(0) != '-' {
            path_override = Some(arg);
        } else {
            let mut m = String::from_str("unknown argument `");
            m.append(arg.as_str());
            m.append("` (expected `--check` or a path)");
            proof {
                reveal_strlit("unknown argument `");
                reveal_strlit("` (expected `--check` or a path)");
                assert(arg@.len() > 0 && arg@[0] == '-');
                assert(parsed(views.take(i + 1)) == Err::<(bool, Option<Seq<char>>), Seq<char>>(arg@));
                lemma_parsed_error_sticks(views, i as int + 1);
            }
            return Err(m);
        }
        i = i + 1;
    }
    proof {
        assert(views.take(n as int) =~= views);
    }
    Ok(SchemaCommand { check, path_override })
}

proof fn lemma_parsed_error_sticks(args: Seq<Seq<char>>, k: int)
    requires
        0 <= k <= args.len(),
        parsed(args.take(k)) is Err,
    ensures
        parsed(args) == parsed(args.take(k)),
    decreases args.len() - k,
{
    if k < args.len() {
        assert(args.take(k + 1).drop_last() =~= args.take(k));
        lemma_parsed_error_sticks(args, k + 1);
    } else {
        assert(args.take(k) =~= args);
    }
}

/// The file the subcommand works on: the override, else the default path.
pub fn schema_path(default_path: &str, path_override: Option<String>) -> (p: String)
    ensures
        match path_override {
            Some(o) => p@ == o@,
            None => p@ == default_path@,
        },
{
    match path_override {
        Some(o) => o,
        None => default_path.to_owned(),
    }
}

/// How the subcommand ends: whether it succeeded, and the line it reports.
pub struct SchemaReport {
    pub success: bool,
    pub message: String,
}

/// The drift check's verdict on the committed file: up to date when it reads back equal
/// to the rendered SDL, out of date when it differs, an error when it cannot be read.
pub fn check_verdict(path: &str, committed: Result<String, String>, sdl: &String) -> (r: SchemaReport)
    ensures
        r.success <==> (committed matches Ok(c) && c@ == sdl@),
        committed matches Ok(c) && c@ == sdl@ ==> r.message@ == path@ + " is up to date"@,
        committed matches Ok(c) && c@ != sdl@ ==> r.message@ == path@
            + " is out of date — run `just graphql-schema` and commit the result"@,
        committed matches Err(e) ==> r.message@ == "cannot read "@ + path@ + ": "@ + e@
            + " — run `just graphql-schema`"@,
{
    match committed {
        Ok(c) => {
            if c.eq(sdl) {
                let mut m = String::from_str(path);
                m.append(" is up to date");
                proof {
                    reveal_strlit(" is up to date");
                }
                SchemaReport { success: true, message: m }
            } else {
                let mut m = String::from_str(path);
                m.append(" is out of date — run `just graphql-schema` and commit the result");
                proof {
                    reveal_strlit(" is out of date — run `just graphql-schema` and commit the result");
                }
                SchemaReport { success: false, message: m }
            }
        },
        Err(e) => {
            let mut m = String::from_str("cannot read ");
            m.append(path);
            m.append(": ");
            m.append(e.as_str());
            m.append(" — run `just graphql-schema`");
            proof {
                reveal_strlit("cannot read ");
                reveal_strlit(": ");
                reveal_strlit(" — run `just graphql-schema`");
            }
            SchemaReport { success: false, message: m }
        },
    }
}

/// The report of writing the SDL to `path`.
pub fn write_verdict(path: &str, written: Result<(), String>) -> (r: SchemaReport)
    ensures
        r.success <==> written is Ok,
        written is Ok ==> r.message@ == "wrote "@ + path@,
        written matches Err(e) ==> r.message@ == "cannot write "@ + path@ + ": "@ + e@,
{
    match written {
        Ok(()) => {
            let mut m = String::from_str("wrote ");
            m.append(path);
            proof {
                reveal_strlit("wrote ");
            }
            SchemaReport { success: true, message: m }
        },
        Err(e) => {
            let mut m = String::from_str("cannot write ");
            m.append(path);
            m.append(": ");
            m.append(e.as_str());
            proof {
                reveal_strlit("cannot write ");
                reveal_strlit(": ");
            }
            SchemaReport { success: false, message: m }
        },
    }
}

} // verus!
