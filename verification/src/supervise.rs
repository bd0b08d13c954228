//! Argument handling for the supervised editor process: the normalization
//! applied to the arguments the session hands the external editor, and the
//! search for the file argument among them.

use vstd::prelude::*;

use crate::str_views;

verus! {

/// The view of the flag the normalization deduplicates.
pub open spec fn watch_flag() -> Seq<char> {
    "--watch"@
}

/// The view of the subcommand the editor is invoked with.
pub open spec fn edit_subcommand() -> Seq<char> {
    "edit"@
}

/// The caller-supplied arguments that survive normalization: all but the
/// copies of the watch flag, in order.
pub open spec fn kept_args(args: Seq<Seq<char>>) -> Seq<Seq<char>>
    decreases args.len(),
{
    if args.len() == 0 {
        Seq::empty()
    } else if args[0] == watch_flag() {
        kept_args(args.drop_first())
    } else {
        seq![args[0]] + kept_args(args.drop_first())
    }
}

/// The full normalized argument list: the fixed invocation pair, then the
/// caller's arguments with their copies of the watch flag removed.
pub open spec fn normalized_args(args: Seq<Seq<char>>) -> Seq<Seq<char>> {
    seq![edit_subcommand(), watch_flag()] + kept_args(args)
}

/// One more caller argument survives exactly when it is not the watch flag.
proof fn lemma_kept_args_push(args: Seq<Seq<char>>, a: Seq<char>)
    ensures
        kept_args(args.push(a)) == if a == watch_flag() {
            kept_args(args)
        } else {
            kept_args(args).push(a)
        },
    decreases args.len(),
{
    if args.len() == 0 {
        assert(args.push(a).drop_first() =~= Seq::<Seq<char>>::empty());
        assert(args.push(a)[0] == a);
        assert(kept_args(Seq::<Seq<char>>::empty()) == Seq::<Seq<char>>::empty());
        if a == watch_flag() {
            assert(kept_args(args.push(a)) =~= kept_args(args));
        } else {
            assert(kept_args(args.push(a)) =~= kept_args(args).push(a));
        }
    } else {
        assert(args.push(a).drop_first() =~= args.drop_first().push(a));
        assert(args.push(a)[0] == args[0]);
        lemma_kept_args_push(args.drop_first(), a);
        if args[0] != watch_flag() {
            if a == watch_flag() {
                assert(kept_args(args.push(a)) =~= kept_args(args));
            } else {
                assert(kept_args(args.push(a)) =~= kept_args(args).push(a));
            }
        }
    }
}

/// Normalizes the arguments for the external editor: puts the fixed
/// subcommand and watch flag first, and keeps the caller's arguments in
/// order with any caller-supplied copy of the watch flag dropped, so the
/// canonical one is never doubled.
pub fn normalize_marimo_args(args: &Vec<String>) -> (r: Vec<String>)
    ensures
        str_views(r@) == normalized_args(str_views(args@)),
{
    let mut r: Vec<String> = Vec::new();
    r.push("edit".to_owned());
    r.push("--watch".to_owned());
    proof {
        assert(str_views(args@).subrange(0, 0) =~= Seq::<Seq<char>>::empty());
        assert(kept_args(Seq::<Seq<char>>::empty()) == Seq::<Seq<char>>::empty());
        assert(str_views(r@) =~= seq![edit_subcommand(), watch_flag()] + kept_args(
            str_views(args@).subrange(0, 0),
        ));
    }
    let watch: String = "--watch".to_owned();
    let mut i: usize = 0;
    while i < args.len()
        invariant
            0 <= i <= args@.len(),
            watch@ == watch_flag(),
            str_views(r@) == seq![edit_subcommand(), watch_flag()] + kept_args(
                str_views(args@).subrange(0, i as int),
            ),
        decreases args@.len() - i,
    {
        let ghost done = str_views(args@).subrange(0, i as int);
        proof {
            lemma_kept_args_push(done, str_views(args@)[i as int]);
            assert(str_views(args@).subrange(0, i + 1) =~= done.push(
                str_views(args@)[i as int],
            ));
            assert(str_views(args@)[i as int] == args@[i as int]@);
        }
        if !args[i].eq(&watch) {
            let ghost prev = r@;
            r.push(args[i].clone());
            proof {
                assert(str_views(r@) =~= str_views(prev).push(args@[i as int]@));
                assert(str_views(r@) =~= seq![edit_subcommand(), watch_flag()] + kept_args(
                    str_views(args@).subrange(0, i + 1),
                ));
            }
        } else {
            proof {
                assert(str_views(r@) =~= seq![edit_subcommand(), watch_flag()] + kept_args(
                    str_views(args@).subrange(0, i + 1),
                ));
            }
        }
        i = i + 1;
    }
    proof {
        assert(str_views(args@).subrange(0, args@.len() as int) =~= str_views(args@));
    }
    r
}

/// Whether an argument is a flag: it begins with a dash.
pub open spec fn arg_is_flag(a: Seq<char>) -> bool {
    a.len() > 0 && a[0] == '-'
}

/// Finds the file argument: the index of the first argument that is not a
/// flag, or nothing when every argument is one — the case the edit workflow
/// rejects as a missing file argument.
pub fn find_file_arg(args: &Vec<String>) -> (r: Option<usize>)
    ensures
        match r {
            Some(i) => i < args@.len() && !arg_is_flag(args@[i as int]@) && forall|j: int|
                0 <= j < i ==> arg_is_flag(args@[j]@),
            None => forall|j: int| 0 <= j < args@.len() ==> arg_is_flag(args@[j]@),
        },
{
    let mut i: usize = 0;
    while i < args.len()
        invariant
            0 <= i <= args@.len(),
            forall|j: int| 0 <= j < i ==> arg_is_flag(args@[j]@),
        decreases args@.len() - i,
    {
        let a = args[i].as_str();
        if a.unicode_len() == 0 || a.get_char(0) != '-' {
            return Some(i);
        }
        i = i + 1;
    }
    None
}

} // verus!
