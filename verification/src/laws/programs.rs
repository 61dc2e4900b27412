//! Programs: where they are looked for, which one is run, and what search path
//! it gets.

use vstd::prelude::*;

use crate::launch::DirView;

verus! {

/// The first place is the first one that holds; there is none only where none
/// holds.
pub proof fn first_is_first(found: Seq<bool>)
    ensures
        crate::launch::first_of(found) matches Some(i) ==> i < found.len() && found[i as int]
            && forall|j: int| 0 <= j < i ==> !#[trigger] found[j],
        crate::launch::first_of(found) is None <==> forall|j: int|
            0 <= j < found.len() ==> !#[trigger] found[j],
    decreases found.len(),
{
    if found.len() > 0 && !found[0] {
        let t = found.skip(1);
        first_is_first(t);
        match crate::launch::first_of(t) {
            Some(i) => {
                assert(t[i as int] == found[i as int + 1]);
                assert forall|j: int| 0 <= j < i + 1 implies !#[trigger] found[j] by {
                    if j > 0 {
                        assert(!t[j - 1]);
                    }
                }
            },
            None => {
                assert forall|j: int| 0 <= j < found.len() implies !#[trigger] found[j] by {
                    if j > 0 {
                        assert(!t[j - 1]);
                    }
                }
            },
        }
    }
}

/// A place that holds and has none before it is the one that is found.
pub proof fn first_is_found(found: Seq<bool>, i: int)
    requires
        0 <= i < found.len(),
        found[i],
        forall|j: int| 0 <= j < i ==> !#[trigger] found[j],
    ensures
        crate::launch::first_of(found) == Some(i as nat),
{
    first_is_first(found);
    if let Some(k) = crate::launch::first_of(found) {
        if k < i {
            assert(!found[k as int]);
        } else if k > i {
            assert(!found[i]);
        }
    }
}

/// A search path without a colon is one directory, or none if it is empty.
pub proof fn one_directory(s: Seq<char>)
    requires
        forall|i: int| 0 <= i < s.len() ==> #[trigger] s[i] != ':',
    ensures
        crate::launch::path_parts(s) == if s.len() == 0 {
            Seq::<Seq<char>>::empty()
        } else {
            seq![s]
        },
{
    crate::launch::lemma_colon_of(s, s.len() as int);
    assert(s.take(s.len() as int) =~= s);
}

proof fn lemma_colon_ahead(a: Seq<char>, b: Seq<char>)
    ensures
        crate::launch::colon_of(a) < a.len() ==> crate::launch::colon_of(a + b)
            == crate::launch::colon_of(a),
        crate::launch::colon_of(a) <= a.len(),
        crate::launch::colon_of(a) == a.len() ==> forall|i: int|
            0 <= i < a.len() ==> #[trigger] a[i] != ':',
    decreases a.len(),
{
    if a.len() > 0 && a[0] != ':' {
        let t = a.skip(1);
        lemma_colon_ahead(t, b);
        assert((a + b).skip(1) =~= t + b);
        assert forall|i: int|
            crate::launch::colon_of(a) == a.len() && 0 <= i < a.len() implies #[trigger] a[i]
            != ':' by {
            if i > 0 {
                assert(t[i - 1] != ':');
            }
        }
    }
}

/// A colon parts a search path: the directories on its left come first, then
/// those on its right.
pub proof fn colon_parts(a: Seq<char>, b: Seq<char>)
    ensures
        crate::launch::path_parts(a + seq![':'] + b) == crate::launch::path_parts(a)
            + crate::launch::path_parts(b),
    decreases a.len(),
{
    let all = a + seq![':'] + b;
    let n = crate::launch::colon_of(a) as int;
    lemma_colon_ahead(a, seq![':'] + b);
    assert(all =~= a + (seq![':'] + b));
    if n < a.len() {
        let t = a.skip(n + 1);
        colon_parts(t, b);
        assert(all.take(n) =~= a.take(n));
        assert(all.skip(n + 1) =~= t + seq![':'] + b);
        assert(crate::launch::path_parts(all) =~= crate::launch::path_parts(a)
            + crate::launch::path_parts(b));
    } else {
        assert(all[n] == ':');
        assert forall|j: int| 0 <= j < n implies #[trigger] all[j] != ':' by {
            assert(a[j] != ':');
        }
        crate::launch::lemma_colon_of(all, n);
        assert(all.take(n) =~= a.take(n));
        assert(all.skip(n + 1) =~= b);
        assert(crate::launch::path_parts(all) =~= crate::launch::path_parts(a)
            + crate::launch::path_parts(b));
    }
}

/// A program is looked for in the directories of the search path first, in
/// their order, and then in places that do not depend on the search path. With
/// a home there are more of these, behind the others.
pub proof fn search_order(path: Seq<char>, home: bool)
    ensures
        ({
            let dirs = crate::launch::program_dirs_of(path, home);
            let parts = crate::launch::path_parts(path);
            let none = Seq::<char>::empty();
            &&& dirs.len() >= parts.len() + 4
            &&& forall|i: int|
                0 <= i < parts.len() ==> #[trigger] dirs[i] == DirView::At(parts[i])
            &&& dirs.skip(parts.len() as int) == crate::launch::program_dirs_of(none, home)
            &&& dirs.take(crate::launch::program_dirs_of(path, false).len() as int)
                == crate::launch::program_dirs_of(path, false)
            &&& forall|i: int|
                0 <= i < dirs.len() ==> (#[trigger] dirs[i] is InHome <==> i
                    >= crate::launch::program_dirs_of(path, false).len())
        }),
{
    let none = Seq::<char>::empty();
    let dirs = crate::launch::program_dirs_of(path, home);
    let parts = crate::launch::path_parts(path);
    one_directory(none);
    assert(dirs.skip(parts.len() as int) =~= crate::launch::program_dirs_of(none, home));
    assert(dirs.take(crate::launch::program_dirs_of(path, false).len() as int)
        =~= crate::launch::program_dirs_of(path, false));
}

/// The search path that a program gets names the directories of this process
/// first, then two usual places, then those of the user's home: all of them,
/// in order, and no others.
pub proof fn child_path_names(base: Seq<char>, homes: Seq<Seq<char>>)
    requires
        forall|i: int| 0 <= i < homes.len() ==> (#[trigger] homes[i]).len() > 0,
        forall|i: int, j: int|
            0 <= i < homes.len() && 0 <= j < homes[i].len() ==> #[trigger] homes[i][j] != ':',
    ensures
        crate::launch::path_parts(crate::launch::child_path_of(base, homes))
            == crate::launch::path_parts(base) + seq![
            "/usr/local/bin"@,
            "/opt/homebrew/bin"@,
        ] + homes,
{
    let none = Seq::<char>::empty();
    let first = "/usr/local/bin:/opt/homebrew/bin"@;
    let extra = first + crate::launch::with_colons(homes);
    let two = seq!["/usr/local/bin"@, "/opt/homebrew/bin"@];
    lemma_extra(homes);
    reveal_strlit(":");
    assert(":"@ =~= seq![':']);
    if base.len() == 0 {
        assert(base =~= none);
        one_directory(none);
        assert(crate::launch::path_parts(base) + two + homes =~= two + homes);
    } else {
        colon_parts(base, extra);
        assert(crate::launch::path_parts(base) + (two + homes)
            =~= crate::launch::path_parts(base) + two + homes);
    }
}

proof fn lemma_extra(homes: Seq<Seq<char>>)
    requires
        forall|i: int| 0 <= i < homes.len() ==> (#[trigger] homes[i]).len() > 0,
        forall|i: int, j: int|
            0 <= i < homes.len() && 0 <= j < homes[i].len() ==> #[trigger] homes[i][j] != ':',
    ensures
        crate::launch::path_parts(
            "/usr/local/bin:/opt/homebrew/bin"@ + crate::launch::with_colons(homes),
        ) == seq!["/usr/local/bin"@, "/opt/homebrew/bin"@] + homes,
    decreases homes.len(),
{
    let first = "/usr/local/bin:/opt/homebrew/bin"@;
    let a = "/usr/local/bin"@;
    let b = "/opt/homebrew/bin"@;
    let two = seq![a, b];
    if homes.len() == 0 {
        assert(first + crate::launch::with_colons(homes) =~= first);
        assert(two + homes =~= two);
        reveal_strlit("/usr/local/bin:/opt/homebrew/bin");
        reveal_strlit("/usr/local/bin");
        reveal_strlit("/opt/homebrew/bin");
        assert(first =~= a + seq![':'] + b);
        colon_parts(a, b);
        one_directory(a);
        one_directory(b);
        assert(seq![a] + seq![b] =~= two);
    } else {
        let t = homes.drop_last();
        let last = homes.last();
        assert forall|i: int| 0 <= i < t.len() implies (#[trigger] t[i]).len() > 0 by {
            assert(homes[i].len() > 0);
        }
        assert forall|i: int, j: int|
            0 <= i < t.len() && 0 <= j < t[i].len() implies #[trigger] t[i][j] != ':' by {
            assert(homes[i][j] != ':');
        }
        lemma_extra(t);
        reveal_strlit(":");
        assert(":"@ =~= seq![':']);
        let before = first + crate::launch::with_colons(t);
        assert(first + crate::launch::with_colons(homes) =~= before + seq![':'] + last);
        colon_parts(before, last);
        assert forall|j: int| 0 <= j < last.len() implies #[trigger] last[j] != ':' by {
            assert(homes[homes.len() - 1][j] != ':');
        }
        assert(homes[homes.len() - 1].len() > 0);
        one_directory(last);
        assert(two + t + seq![last] =~= two + homes);
    }
}

/// What the environment says about the shell is taken as it is.
pub proof fn shell_is_kept(windows: bool, shell: Seq<char>)
    ensures
        crate::launch::default_shell_of(windows, Some(shell)) == shell,
{
}

/// A program is given by its path just if there is a slash in it.
pub proof fn paths_have_slashes(program: Seq<char>)
    ensures
        crate::launch::is_path(program) <==> exists|i: int|
            0 <= i < program.len() && #[trigger] program[i] == '/',
{
}

} // verus!
