use vstd::prelude::*;

verus! {

/// The clipboard programs to probe, in order of preference, each as its
/// argument vector: `pbcopy` on macOS; elsewhere `wl-copy`, then `xclip`,
/// then `xsel`.
pub open spec fn clipboard_candidates(macos: bool) -> Seq<Seq<Seq<char>>> {
    if macos {
        seq![seq!["pbcopy"@]]
    } else {
        seq![
            seq!["wl-copy"@],
            seq!["xclip"@, "-selection"@, "clipboard"@],
            seq!["xsel"@, "--clipboard"@, "--input"@],
        ]
    }
}

/// The texts of an argument vector.
pub open spec fn argv_view(v: Seq<String>) -> Seq<Seq<char>> {
    v.map_values(|s: String| s@)
}

/// The candidate programs as argument vectors, in order of preference.
pub fn candidate_commands(macos: bool) -> (r: Vec<Vec<String>>)
    ensures
        r@.len() == clipboard_candidates(macos).len(),
        forall|i: int| 0 <= i < r@.len() ==> #[trigger] argv_view(r@[i]@) == clipboard_candidates(macos)[i],
{
    let mut r: Vec<Vec<String>> = Vec::new();
    if macos {
        r.push(vec!["pbcopy".to_owned()]);
    } else {
        r.push(vec!["wl-copy".to_owned()]);
        r.push(vec!["xclip".to_owned(), "-selection".to_owned(), "clipboard".to_owned()]);
        r.push(vec!["xsel".to_owned(), "--clipboard".to_owned(), "--input".to_owned()]);
    }
    assert(argv_view(r@[0]@) =~= clipboard_candidates(macos)[0]);
    if !macos {
        assert(argv_view(r@[1]@) =~= clipboard_candidates(macos)[1]);
        assert(argv_view(r@[2]@) =~= clipboard_candidates(macos)[2]);
    }
    r
}

/// The clipboard command to run: the first candidate whose program was found,
/// where `found[i]` tells whether the program of the i-th candidate is on the
/// search path (a missing flag counts as not found). `None` when none was.
pub fn clipboard_command(macos: bool, found: &Vec<bool>) -> (r: Option<Vec<String>>)
    ensures
        r is None <==> forall|i: int|
            0 <= i < clipboard_candidates(macos).len() && i < found@.len() ==> !#[trigger] found@[i],
        r matches Some(v) ==> exists|i: int|
            0 <= i < clipboard_candidates(macos).len() && i < found@.len() && #[trigger] found@[i]
                && (forall|j: int| 0 <= j < i ==> !found@[j])
                && argv_view(v@) == clipboard_candidates(macos)[i],
{
    let mut cands = candidate_commands(macos);
    let n = cands.len();
    let mut i: usize = 0;
    while i < n && i < found.len()
        invariant
            i <= n,
            n == cands@.len(),
            n == clipboard_candidates(macos).len(),
            forall|k: int| 0 <= k < n ==> #[trigger] argv_view(cands@[k]@) == clipboard_candidates(macos)[k],
            forall|j: int| 0 <= j < i && j < found@.len() ==> !#[trigger] found@[j],
        decreases n - i,
    {
        if found[i] {
            let v = cands.swap_remove(i);
            return Some(v);
        }
        i = i + 1;
    }
    None
}

} // verus!
