//! URL rewriting: an ordered list of rules, each a regular expression and a
//! template. The first rule whose expression matches a path rewrites it; `$0` in
//! the template stands for the whole match and `$1`, `$2`, ... for the groups.
//!
//! Matching is done by the `regex` crate; what it finds is named here, and the
//! expansion of a template from what it found is verified.

use vstd::prelude::*;
use crate::config::RewriteRule;
use crate::text::{chars_of, decimal_spec, push_char, push_decimal, replace_all, replace_spec, string_from_chars};

verus! {

/// Whether `Regex::new` accepts the pattern.
pub uninterp spec fn regex_valid(pattern: Seq<char>) -> bool;

/// What `Regex::captures` finds in `text` for a valid pattern: nothing, or the
/// text of each group (group 0 being the whole match), `None` for a group that
/// took no part in the match.
pub uninterp spec fn regex_captures_of(pattern: Seq<char>, text: Seq<char>) -> Option<Seq<Option<Seq<char>>>>;

/// The view of a list of optional strings.
pub open spec fn opt_texts(v: Seq<Option<String>>) -> Seq<Option<Seq<char>>> {
    v.map_values(
        |o: Option<String>|
            match o {
                Some(s) => Some(s@),
                None => None,
            },
    )
}

/// `regex::Regex::new(pattern).is_ok()`: whether the pattern compiles.
#[verifier::external_body]
fn regex_compiles(pattern: &str) -> (b: bool)
    ensures
        b == regex_valid(pattern@),
{
    regex::Regex::new(pattern).is_ok()
}

/// `regex::Regex::captures` on `text`, with the expression compiled from `pattern`
/// by `Regex::new`: nothing when the pattern does not compile or the expression
/// does not match; else the groups in order, by `Captures::iter`, which the crate
/// documents as having at least the whole match, at index 0.
#[verifier::external_body]
fn regex_captures(pattern: &str, text: &str) -> (r: Option<Vec<Option<String>>>)
    ensures
        !regex_valid(pattern@) ==> r is None,
        regex_valid(pattern@) ==> match r {
            None => regex_captures_of(pattern@, text@) is None,
            Some(v) => regex_captures_of(pattern@, text@) == Some(opt_texts(v@)),
        },
        r matches Some(v) ==> v@.len() >= 1 && v@[0] is Some,
{
    let re = match regex::Regex::new(pattern) {
        Ok(re) => re,
        Err(_) => return None,
    };
    let caps = re.captures(text)?;
    let mut out: Vec<Option<String>> = Vec::new();
    for m in caps.iter() {
        out.push(m.map(|x| x.as_str().to_string()));
    }
    Some(out)
}

/// The reference to group `i` in a template: `$` and the decimal number.
pub open spec fn group_ref(i: nat) -> Seq<char> {
    seq!['$'] + decimal_spec(i)
}

/// The template after the references to groups `0 .. n` are replaced, in that
/// order, by the text of each group that took part in the match.
pub open spec fn expand_upto(to: Seq<char>, caps: Seq<Option<Seq<char>>>, n: nat) -> Seq<char>
    decreases n,
{
    if n == 0 {
        to
    } else {
        let r = expand_upto(to, caps, (n - 1) as nat);
        match caps[n - 1] {
            Some(m) => replace_spec(r, group_ref((n - 1) as nat), m),
            None => r,
        }
    }
}

/// The template with every group reference replaced.
pub open spec fn expand(to: Seq<char>, caps: Seq<Option<Seq<char>>>) -> Seq<char> {
    expand_upto(to, caps, caps.len())
}

/// Expands the template `to` with the groups `caps` of a match.
pub fn expand_template(to: &str, caps: &[Option<String>]) -> (r: String)
    ensures
        r@ == expand(to@, opt_texts(caps@)),
{
    let mut result = chars_of(to);
    let n = caps.len();
    let mut i: usize = 0;
    while i < n
        invariant
            n == caps@.len(),
            i <= n,
            result@ == expand_upto(to@, opt_texts(caps@), i as nat),
        decreases n - i,
    {
        match &caps[i] {
            Some(m) => {
                let mut pat = String::new();
                push_char(&mut pat, '$');
                push_decimal(&mut pat, i as u64);
                let p = chars_of(pat.as_str());
                assert(p@ =~= group_ref(i as nat));
                let w = chars_of(m.as_str());
                result = replace_all(result.as_slice(), p.as_slice(), w.as_slice());
            },
            None => {},
        }
        i += 1;
    }
    string_from_chars(result.as_slice())
}

/// A template without `$` is left as it is.
pub proof fn law_plain_template(to: Seq<char>, caps: Seq<Option<Seq<char>>>)
    requires
        !to.contains('$'),
    ensures
        expand(to, caps) == to,
{
    lemma_expand_upto_plain(to, caps, caps.len());
}

proof fn lemma_expand_upto_plain(to: Seq<char>, caps: Seq<Option<Seq<char>>>, n: nat)
    requires
        !to.contains('$'),
    ensures
        expand_upto(to, caps, n) == to,
    decreases n,
{
    if n > 0 {
        lemma_expand_upto_plain(to, caps, (n - 1) as nat);
        match caps[n - 1] {
            Some(m) => lemma_replace_absent(to, group_ref((n - 1) as nat), m),
            None => {},
        }
    }
}

/// Replacing a pattern that starts with `$` changes nothing in a text without `$`.
proof fn lemma_replace_absent(s: Seq<char>, p: Seq<char>, w: Seq<char>)
    requires
        !s.contains('$'),
        p.len() > 0,
        p[0] == '$',
    ensures
        replace_spec(s, p, w) == s,
    decreases s.len(),
{
    if s.len() > 0 {
        assert(!s.skip(1).contains('$')) by {
            if s.skip(1).contains('$') {
                let k = choose|k: int| 0 <= k < s.skip(1).len() && s.skip(1)[k] == '$';
                assert(s[k + 1] == '$');
            }
        }
        lemma_replace_absent(s.skip(1), p, w);
        if crate::text::starts_with(s, p) {
            assert(s[0] == s.take(p.len() as int)[0]);
            assert(s.contains('$'));
        }
        assert(seq![s[0]] + s.skip(1) =~= s);
    }
}

/// A rule whose pattern compiles, by its pattern and template.
pub open spec fn rule_view(p: (String, String)) -> (Seq<char>, Seq<char>) {
    (p.0@, p.1@)
}

/// What the first matching rule makes of `path`, if some rule matches.
pub open spec fn first_rewrite(rules: Seq<(Seq<char>, Seq<char>)>, path: Seq<char>) -> Option<Seq<char>>
    decreases rules.len(),
{
    if rules.len() == 0 {
        None
    } else {
        match regex_captures_of(rules[0].0, path) {
            Some(caps) => Some(expand(rules[0].1, caps)),
            None => first_rewrite(rules.drop_first(), path),
        }
    }
}

/// The rules of `rules` whose patterns compile, in order.
pub open spec fn valid_rules(rules: Seq<RewriteRule>) -> Seq<(Seq<char>, Seq<char>)>
    decreases rules.len(),
{
    if rules.len() == 0 {
        Seq::empty()
    } else {
        let r = valid_rules(rules.drop_last());
        if regex_valid(rules.last().from@) {
            r.push((rules.last().from@, rules.last().to@))
        } else {
            r
        }
    }
}

/// The first rule that matches decides: when no rule before the `k`-th matches and
/// the `k`-th does, the path is rewritten by the `k`-th.
pub proof fn law_first_match_wins(
    rules: Seq<(Seq<char>, Seq<char>)>,
    path: Seq<char>,
    k: int,
)
    requires
        0 <= k < rules.len(),
        forall|j: int| 0 <= j < k ==> #[trigger] regex_captures_of(rules[j].0, path) is None,
        regex_captures_of(rules[k].0, path) is Some,
    ensures
        first_rewrite(rules, path) == Some(
            expand(rules[k].1, regex_captures_of(rules[k].0, path)->0),
        ),
    decreases k,
{
    if k > 0 {
        let rest = rules.drop_first();
        assert forall|j: int| 0 <= j < k - 1 implies #[trigger] regex_captures_of(rest[j].0, path) is None by {
            assert(rest[j] == rules[j + 1]);
            assert(regex_captures_of(rules[j + 1].0, path) is None);
        }
        assert(rest[k - 1] == rules[k]);
        law_first_match_wins(rest, path, k - 1);
        assert(regex_captures_of(rules[0].0, path) is None);
    }
}

/// The rewriting engine: the rules whose patterns compile, in order.
pub struct RewriteEngine {
    rules: Vec<(String, String)>,
}

impl RewriteEngine {
    /// The rules, by pattern and template.
    pub closed spec fn rules(&self) -> Seq<(Seq<char>, Seq<char>)> {
        self.rules@.map_values(|p: (String, String)| rule_view(p))
    }

    /// Every pattern compiles.
    #[verifier::type_invariant]
    spec fn patterns_compile(&self) -> bool {
        forall|i: int| 0 <= i < self.rules@.len() ==> regex_valid(#[trigger] self.rules@[i].0@)
    }

    /// An engine with the rules of `rules` whose patterns compile, in order; the
    /// others are dropped.
    pub fn new(rules: &[RewriteRule]) -> (e: RewriteEngine)
        ensures
            e.rules() == valid_rules(rules@),
            forall|i: int| 0 <= i < e.rules().len() ==> regex_valid(#[trigger] e.rules()[i].0),
    {
        let mut compiled: Vec<(String, String)> = Vec::new();
        let n = rules.len();
        let mut i: usize = 0;
        while i < n
            invariant
                n == rules@.len(),
                i <= n,
                compiled@.map_values(|p: (String, String)| rule_view(p)) == valid_rules(rules@.take(i as int)),
                forall|j: int| 0 <= j < compiled@.len() ==> regex_valid(#[trigger] compiled@[j].0@),
            decreases n - i,
        {
            assert(rules@.take(i + 1).drop_last() =~= rules@.take(i as int));
            assert(rules@.take(i + 1).last() == rules@[i as int]);
            let r = &rules[i];
            if regex_compiles(r.from.as_str()) {
                let ghost before = compiled@;
                compiled.push((r.from.clone(), r.to.clone()));
                assert(compiled@.map_values(|p: (String, String)| rule_view(p)) =~= before.map_values(
                    |p: (String, String)| rule_view(p),
                ).push((r.from@, r.to@)));
            }
            i += 1;
        }
        assert(rules@.take(n as int) =~= rules@);
        RewriteEngine { rules: compiled }
    }

    /// What the first rule whose expression matches `path` makes of it, or `None`
    /// when no rule matches.
    pub fn rewrite(&self, path: &str) -> (r: Option<String>)
        ensures
            match first_rewrite(self.rules(), path@) {
                Some(v) => r is Some && r->0@ == v,
                None => r is None,
            },
    {
        proof {
            use_type_invariant(self);
        }
        let n = self.rules.len();
        let mut i: usize = 0;
        assert(self.rules().skip(0) =~= self.rules());
        assert forall|j: int| 0 <= j < self.rules().len() implies regex_valid(#[trigger] self.rules()[j].0) by {
            assert(self.rules()[j] == rule_view(self.rules@[j]));
        }
        while i < n
            invariant
                n == self.rules@.len(),
                n == self.rules().len(),
                i <= n,
                forall|j: int| 0 <= j < self.rules().len() ==> regex_valid(#[trigger] self.rules()[j].0),
                first_rewrite(self.rules(), path@) == first_rewrite(self.rules().skip(i as int), path@),
            decreases n - i,
        {
            let ghost rest = self.rules().skip(i as int);
            assert(rest[0] == self.rules()[i as int]);
            assert(rest.drop_first() =~= self.rules().skip(i + 1));
            let rule = &self.rules[i];
            assert(rule_view(*rule) == self.rules()[i as int]);
            match regex_captures(rule.0.as_str(), path) {
                Some(caps) => {
                    return Some(expand_template(rule.1.as_str(), caps.as_slice()));
                },
                None => {},
            }
            i += 1;
        }
        None
    }
}

} // verus!
