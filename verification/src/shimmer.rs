//! Shimmer: file I/O scoring. Each rule maps a path pattern to a confidence
//! score; a path is scored by the most restrictive rule that matches it, and
//! the score decides between allow (0..=30), alert (31..=70) and block.

use vstd::prelude::*;
use crate::text::{
    chars_ends_with, chars_of, chars_starts_with, decimal, is_prefix, is_suffix, push_decimal, str_eq,
};

verus! {

/// What the kernel probe does with a file access of a given score.
#[derive(Debug, Clone, Copy, PartialEq, Eq, Structural)]
pub enum ShimmerAction {
    Allow,
    Alert,
    Block,
}

/// The action band of a score: 0..=30 allow, 31..=70 alert, above that block.
pub open spec fn action_for_score(score: u32) -> ShimmerAction {
    if score <= 30 {
        ShimmerAction::Allow
    } else if score <= 70 {
        ShimmerAction::Alert
    } else {
        ShimmerAction::Block
    }
}

/// The numeric code of an action in the BPF map: 0 allow, 1 alert, 2 block.
pub open spec fn action_code(action: ShimmerAction) -> u32 {
    match action {
        ShimmerAction::Allow => 0,
        ShimmerAction::Alert => 1,
        ShimmerAction::Block => 2,
    }
}

impl ShimmerAction {
    /// The action for a confidence score.
    pub fn from_score(score: u32) -> (action: ShimmerAction)
        ensures
            action == action_for_score(score),
    {
        if score <= 30 {
            ShimmerAction::Allow
        } else if score <= 70 {
            ShimmerAction::Alert
        } else {
            ShimmerAction::Block
        }
    }

    /// The action's code in the BPF map.
    pub fn code(&self) -> (c: u32)
        ensures
            c == action_code(*self),
    {
        match self {
            ShimmerAction::Allow => 0,
            ShimmerAction::Alert => 1,
            ShimmerAction::Block => 2,
        }
    }
}

/// A rule from a package manifest: a path pattern, its score and action.
#[derive(Debug, Clone)]
pub struct ShimmerRule {
    pub path_pattern: String,
    pub score: u32,
    pub action: ShimmerAction,
}

/// Glob-style matching: `*` matches everything, `dir/*` every path under
/// `dir/` (one that starts with `dir/`), `*.ext` every path that ends with
/// `.ext`; any other pattern only the path equal to it.
pub open spec fn path_matches_spec(path: Seq<char>, pattern: Seq<char>) -> bool {
    if pattern == seq!['*'] {
        true
    } else if is_suffix(seq!['/', '*'], pattern) {
        is_prefix(pattern.take(pattern.len() - 1), path)
    } else if is_prefix(seq!['*', '.'], pattern) {
        is_suffix(pattern.skip(1), path)
    } else {
        path == pattern
    }
}

/// Whether `path` matches the glob-style `pattern` (see `path_matches_spec`).
pub fn path_matches(path: &str, pattern: &str) -> (r: bool)
    ensures
        r == path_matches_spec(path@, pattern@),
{
    let pc = chars_of(pattern);
    let cs = chars_of(path);
    let n = pc.len();
    if n == 1 && pc[0] == '*' {
        assert(pc@ =~= seq!['*']);
        return true;
    }
    assert(pc@ != seq!['*']);
    if n >= 2 && pc[n - 2] == '/' && pc[n - 1] == '*' {
        assert(pc@.skip(n - 2) =~= seq!['/', '*']);
        let mut prefix: Vec<char> = Vec::new();
        let mut i: usize = 0;
        while i < n - 1
            invariant
                n == pc.len(),
                2 <= n,
                i <= n - 1,
                prefix@ == pc@.take(i as int),
            decreases n - 1 - i,
        {
            prefix.push(pc[i]);
            assert(pc@.take(i + 1) =~= pc@.take(i as int).push(pc@[i as int]));
            i = i + 1;
        }
        return chars_starts_with(&cs, &prefix);
    }
    assert(!is_suffix(seq!['/', '*'], pc@)) by {
        if is_suffix(seq!['/', '*'], pc@) {
            assert(pc@.skip(n - 2)[0] == '/');
            assert(pc@.skip(n - 2)[1] == '*');
        }
    }
    if n >= 2 && pc[0] == '*' && pc[1] == '.' {
        assert(pc@.take(2) =~= seq!['*', '.']);
        let mut suffix: Vec<char> = Vec::new();
        let mut i: usize = 1;
        while i < n
            invariant
                n == pc.len(),
                1 <= i <= n,
                suffix@ == pc@.subrange(1, i as int),
            decreases n - i,
        {
            suffix.push(pc[i]);
            assert(pc@.subrange(1, i + 1) =~= pc@.subrange(1, i as int).push(pc@[i as int]));
            i = i + 1;
        }
        assert(suffix@ =~= pc@.skip(1));
        return chars_ends_with(&cs, &suffix);
    }
    assert(!is_prefix(seq!['*', '.'], pc@)) by {
        if is_prefix(seq!['*', '.'], pc@) {
            assert(pc@.take(2)[0] == '*');
            assert(pc@.take(2)[1] == '.');
        }
    }
    str_eq(path, pattern)
}

/// The highest score among the rules (the first `rules.len()` of them) whose
/// pattern matches `path`, or 0 when none matches.
pub open spec fn max_matching_score(rules: Seq<ShimmerRule>, path: Seq<char>) -> u32
    decreases rules.len(),
{
    if rules.len() == 0 {
        0
    } else {
        let m = max_matching_score(rules.drop_last(), path);
        let r = rules.last();
        if path_matches_spec(path, r.path_pattern@) && r.score > m {
            r.score
        } else {
            m
        }
    }
}

/// The staging file name of a pattern: the pattern with `/` turned into `_`.
pub open spec fn staging_file_name(pattern: Seq<char>) -> Seq<char> {
    pattern.map_values(|c: char| if c == '/' { '_' } else { c })
}

/// The staging line of a rule: `pattern|score|action_code`.
pub open spec fn staging_line(rule: ShimmerRule) -> Seq<char> {
    rule.path_pattern@ + seq!['|'] + decimal(rule.score as nat) + seq!['|'] + decimal(
        action_code(rule.action) as nat,
    )
}

/// The scoring engine: the rules of every package added so far.
pub struct Shimmer {
    rules: Vec<ShimmerRule>,
}

impl Shimmer {
    /// The rules, in the order they were added.
    pub closed spec fn rules(&self) -> Seq<ShimmerRule> {
        self.rules@
    }

    /// An engine without rules.
    pub fn new() -> (s: Shimmer)
        ensures
            s.rules() == Seq::<ShimmerRule>::empty(),
    {
        Shimmer { rules: Vec::new() }
    }

    /// Adds a package's rules after those already there.
    pub fn add_rules(&mut self, rules: Vec<ShimmerRule>)
        ensures
            final(self).rules() == old(self).rules() + rules@,
    {
        let mut rules = rules;
        self.rules.append(&mut rules);
    }

    /// Scores `path`: the highest score of a matching rule (0 if none) and
    /// the action that score calls for.
    pub fn evaluate(&self, path: &str) -> (r: (u32, ShimmerAction))
        ensures
            r.0 == max_matching_score(self.rules(), path@),
            r.1 == action_for_score(r.0),
    {
        let mut max_score: u32 = 0;
        let mut i: usize = 0;
        while i < self.rules.len()
            invariant
                i <= self.rules.len(),
                max_score == max_matching_score(self.rules@.take(i as int), path@),
            decreases self.rules.len() - i,
        {
            let rule = &self.rules[i];
            assert(self.rules@.take(i + 1).drop_last() =~= self.rules@.take(i as int));
            if path_matches(path, rule.path_pattern.as_str()) {
                if rule.score > max_score {
                    max_score = rule.score;
                }
            }
            i = i + 1;
        }
        assert(self.rules@.take(self.rules.len() as int) =~= self.rules@);
        (max_score, ShimmerAction::from_score(max_score))
    }

    /// The staging files that hand the rules to the kernel probe: for each
    /// rule, in order, its file name and its `pattern|score|action` line.
    pub fn staging_files(&self) -> (files: Vec<(String, String)>)
        ensures
            files@.len() == self.rules().len(),
            forall|i: int|
                0 <= i < files@.len() ==> {
                    &&& (#[trigger] files@[i]).0@ == staging_file_name(self.rules()[i].path_pattern@)
                    &&& files@[i].1@ == staging_line(self.rules()[i])
                },
    {
        let mut files: Vec<(String, String)> = Vec::new();
        let mut i: usize = 0;
        while i < self.rules.len()
            invariant
                i <= self.rules.len(),
                files@.len() == i,
                forall|k: int|
                    0 <= k < i ==> {
                        &&& (#[trigger] files@[k]).0@ == staging_file_name(self.rules@[k].path_pattern@)
                        &&& files@[k].1@ == staging_line(self.rules@[k])
                    },
            decreases self.rules.len() - i,
        {
            let rule = &self.rules[i];
            let pc = chars_of(rule.path_pattern.as_str());
            let mut name = String::new();
            let mut j: usize = 0;
            while j < pc.len()
                invariant
                    j <= pc.len(),
                    pc@ == rule.path_pattern@,
                    name@ == staging_file_name(pc@).take(j as int),
                decreases pc.len() - j,
            {
                let c = pc[j];
                if c == '/' {
                    name.push('_');
                } else {
                    name.push(c);
                }
                assert(staging_file_name(pc@).take(j + 1) =~= staging_file_name(pc@).take(
                    j as int,
                ).push(staging_file_name(pc@)[j as int]));
                j = j + 1;
            }
            assert(staging_file_name(pc@).take(pc.len() as int) =~= staging_file_name(pc@));
            let mut line = rule.path_pattern.clone();
            line.push('|');
            push_decimal(&mut line, rule.score as u64);
            line.push('|');
            push_decimal(&mut line, rule.action.code() as u64);
            assert(line@ =~= staging_line(*rule));
            files.push((name, line));
            i = i + 1;
        }
        files
    }
}

/// The score that `evaluate` gives is at least the score of every matching
/// rule, and it is either 0 or the score of a matching rule: the most
/// restrictive match wins.
pub proof fn lemma_highest_matching_score_wins(rules: Seq<ShimmerRule>, path: Seq<char>)
    ensures
        forall|i: int|
            0 <= i < rules.len() && path_matches_spec(path, (#[trigger] rules[i]).path_pattern@)
                ==> rules[i].score <= max_matching_score(rules, path),
        max_matching_score(rules, path) == 0 || exists|i: int|
            0 <= i < rules.len() && path_matches_spec(path, (#[trigger] rules[i]).path_pattern@)
                && rules[i].score == max_matching_score(rules, path),
    decreases rules.len(),
{
    if rules.len() > 0 {
        let prefix = rules.drop_last();
        lemma_highest_matching_score_wins(prefix, path);
        assert forall|i: int|
            0 <= i < rules.len() && path_matches_spec(path, (#[trigger] rules[i]).path_pattern@)
                implies rules[i].score <= max_matching_score(rules, path) by {
            if i < rules.len() - 1 {
                assert(prefix[i] == rules[i]);
            }
        }
        if max_matching_score(rules, path) != 0 {
            if max_matching_score(rules, path) == max_matching_score(prefix, path) {
                let k = choose|k: int|
                    0 <= k < prefix.len() && path_matches_spec(path, (#[trigger] prefix[k]).path_pattern@)
                        && prefix[k].score == max_matching_score(prefix, path);
                assert(rules[k] == prefix[k]);
            } else {
                assert(path_matches_spec(path, rules[rules.len() - 1].path_pattern@));
            }
        }
    }
}

/// A `*.ext` pattern matches exactly the paths whose last characters are
/// `.ext`: nothing else in the path counts, in particular not a `.ext`
/// that occurs earlier.
pub proof fn lemma_extension_pattern_matches_endings(path: Seq<char>, pattern: Seq<char>)
    requires
        pattern.len() >= 2,
        pattern[0] == '*',
        pattern[1] == '.',
        !(pattern[pattern.len() - 2] == '/' && pattern[pattern.len() - 1] == '*'),
    ensures
        path_matches_spec(path, pattern) <==> {
            &&& path.len() >= pattern.len() - 1
            &&& forall|i: int|
                1 <= i < pattern.len() ==> #[trigger] pattern[i] == path[path.len() - pattern.len() + i]
        },
{
    assert(pattern != seq!['*']);
    assert(!is_suffix(seq!['/', '*'], pattern)) by {
        if is_suffix(seq!['/', '*'], pattern) {
            assert(pattern.skip(pattern.len() - 2)[0] == pattern[pattern.len() - 2]);
            assert(pattern.skip(pattern.len() - 2)[1] == pattern[pattern.len() - 1]);
        }
    }
    assert(is_prefix(seq!['*', '.'], pattern)) by {
        assert(pattern.take(2) =~= seq!['*', '.']);
    }
    let sfx = pattern.skip(1);
    if path.len() >= pattern.len() - 1 {
        let tail = path.skip(path.len() - sfx.len());
        if forall|i: int| 1 <= i < pattern.len() ==> #[trigger] pattern[i] == path[path.len() - pattern.len() + i] {
            assert forall|j: int| 0 <= j < sfx.len() implies tail[j] == sfx[j] by {
                assert(pattern[j + 1] == path[path.len() - pattern.len() + j + 1]);
            }
            assert(tail =~= sfx);
        }
        if tail == sfx {
            assert forall|i: int| 1 <= i < pattern.len() implies #[trigger] pattern[i] == path[path.len()
                - pattern.len() + i] by {
                assert(tail[i - 1] == sfx[i - 1]);
            }
        }
    }
}

/// A `dir/*` pattern matches exactly the paths that start with `dir/`.
pub proof fn lemma_dir_pattern_matches_under(path: Seq<char>, pattern: Seq<char>)
    requires
        pattern.len() >= 2,
        pattern[pattern.len() - 2] == '/',
        pattern[pattern.len() - 1] == '*',
    ensures
        path_matches_spec(path, pattern) <==> {
            &&& path.len() >= pattern.len() - 1
            &&& forall|i: int| 0 <= i < pattern.len() - 1 ==> #[trigger] path[i] == pattern[i]
        },
{
    assert(pattern != seq!['*']);
    assert(is_suffix(seq!['/', '*'], pattern)) by {
        assert(pattern.skip(pattern.len() - 2) =~= seq!['/', '*']);
    }
    let dir = pattern.take(pattern.len() - 1);
    if path.len() >= pattern.len() - 1 {
        let head = path.take(dir.len() as int);
        if forall|i: int| 0 <= i < pattern.len() - 1 ==> #[trigger] path[i] == pattern[i] {
            assert(head =~= dir);
        }
        if head == dir {
            assert forall|i: int| 0 <= i < pattern.len() - 1 implies #[trigger] path[i] == pattern[i] by {
                assert(head[i] == dir[i]);
            }
        }
    }
}

/// The score of a path is the highest score among the rules that match it,
/// or 0 when none does: no matching rule scores more, and a nonzero score
/// is that of a matching rule.
pub proof fn lemma_score_is_highest_match(rules: Seq<ShimmerRule>, path: Seq<char>)
    ensures
        forall|i: int|
            0 <= i < rules.len() && path_matches_spec(path, (#[trigger] rules[i]).path_pattern@) ==> rules[i].score
                <= max_matching_score(rules, path),
        max_matching_score(rules, path) == 0 || exists|i: int|
            0 <= i < rules.len() && path_matches_spec(path, (#[trigger] rules[i]).path_pattern@) && rules[i].score
                == max_matching_score(rules, path),
        (forall|i: int| 0 <= i < rules.len() ==> !path_matches_spec(path, (#[trigger] rules[i]).path_pattern@))
            ==> max_matching_score(rules, path) == 0,
    decreases rules.len(),
{
    if rules.len() > 0 {
        let p = rules.drop_last();
        lemma_score_is_highest_match(p, path);
        assert forall|i: int|
            0 <= i < rules.len() && path_matches_spec(path, (#[trigger] rules[i]).path_pattern@) implies rules[i].score
                <= max_matching_score(rules, path) by {
            if i < rules.len() - 1 {
                assert(rules[i] == p[i]);
            }
        }
        if max_matching_score(rules, path) != 0 {
            if max_matching_score(rules, path) == max_matching_score(p, path) {
                let i = choose|i: int|
                    0 <= i < p.len() && path_matches_spec(path, (#[trigger] p[i]).path_pattern@) && p[i].score
                        == max_matching_score(p, path);
                assert(rules[i] == p[i]);
            } else {
                assert(path_matches_spec(path, rules[rules.len() - 1].path_pattern@));
            }
        }
        if forall|i: int| 0 <= i < rules.len() ==> !path_matches_spec(path, (#[trigger] rules[i]).path_pattern@) {
            assert forall|i: int| 0 <= i < p.len() implies !path_matches_spec(path, (#[trigger] p[i]).path_pattern@) by {
                assert(rules[i] == p[i]);
            }
            assert(!path_matches_spec(path, rules[rules.len() - 1].path_pattern@));
        }
    }
}

} // verus!
