use vstd::prelude::*;

verus! {

/// Whether the regular expression `pattern` finds a match anywhere in `text`
/// (false where `pattern` is not a valid expression), as the `regex` crate
/// decides it.
pub uninterp spec fn pattern_found(pattern: Seq<char>, text: Seq<char>) -> bool;

/// Relies on `regex::Regex::new` and `regex::Regex::is_match`: compiles the
/// pattern and reports whether it matches somewhere in the text; a pattern
/// that does not compile matches nothing.
#[verifier::external_body]
fn regex_finds(pattern: &str, text: &str) -> (r: bool)
    ensures
        r == pattern_found(pattern@, text@),
{
    match regex::Regex::new(pattern) {
        Ok(re) => re.is_match(text),
        Err(_) => false,
    }
}

/// The rules that flag a command as destructive or privilege-escalating:
/// standalone `rm`, `sudo`, `dd`, a word starting with `mkfs`, standalone
/// `shutdown`, `reboot`, `poweroff`, and a pipe into `sh`.
pub open spec fn danger_rules() -> Seq<Seq<char>> {
    seq![
        "\\brm\\b"@,
        "\\bsudo\\b"@,
        "\\bdd\\b"@,
        "\\bmkfs"@,
        "\\bshutdown\\b"@,
        "\\breboot\\b"@,
        "\\bpoweroff\\b"@,
        "\\|\\s*sh\\b"@,
    ]
}

/// Some rule of `rules` finds a match in `cmd`.
pub open spec fn any_rule_hits(rules: Seq<Seq<char>>, cmd: Seq<char>) -> bool {
    exists|i: int| 0 <= i < rules.len() && #[trigger] pattern_found(rules[i], cmd)
}

/// The danger rules, in order.
pub fn danger_patterns() -> (r: Vec<&'static str>)
    ensures
        r@.len() == danger_rules().len(),
        forall|i: int| 0 <= i < r@.len() ==> #[trigger] r@[i]@ == danger_rules()[i],
{
    let r: Vec<&'static str> = vec![
        "\\brm\\b",
        "\\bsudo\\b",
        "\\bdd\\b",
        "\\bmkfs",
        "\\bshutdown\\b",
        "\\breboot\\b",
        "\\bpoweroff\\b",
        "\\|\\s*sh\\b",
    ];
    r
}

/// Whether any of `rules` matches somewhere in `cmd`.
pub fn matches_any_rule(rules: &Vec<&str>, cmd: &str) -> (r: bool)
    ensures
        r == any_rule_hits(rules@.map_values(|p: &str| p@), cmd@),
{
    let ghost views = rules@.map_values(|p: &str| p@);
    let mut i: usize = 0;
    while i < rules.len()
        invariant
            i <= rules@.len(),
            views == rules@.map_values(|p: &str| p@),
            forall|j: int| 0 <= j < i ==> !pattern_found(#[trigger] views[j], cmd@),
        decreases rules@.len() - i,
    {
        if regex_finds(rules[i], cmd) {
            assert(pattern_found(views[i as int], cmd@));
            return true;
        }
        i = i + 1;
    }
    false
}

/// Whether `cmd` looks destructive or privilege-escalating. The match is on
/// the literal text, word-boundary anchored, with no shell parsing.
pub fn is_dangerous(cmd: &str) -> (r: bool)
    ensures
        r == any_rule_hits(danger_rules(), cmd@),
{
    let rules = danger_patterns();
    let r = matches_any_rule(&rules, cmd);
    assert(rules@.map_values(|p: &str| p@) =~= danger_rules());
    r
}

} // verus!
