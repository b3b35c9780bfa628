//! Positional placeholder substitution.
//!
//! A placeholder is `{n}` with `n` a decimal integer of at least 1 and no
//! leading zero. The placeholders of a template are found with a regular
//! expression; each distinct index that has an argument is then replaced
//! everywhere by that argument, index by index.

use crate::decimal::{
    decimal_string, decimal_text, index_of_text, lemma_index_text_unique, parse_index,
};
use crate::text::{optional_text, texts};
use vstd::prelude::*;
use vstd::string::*;

verus! {

/// The regular expression that finds placeholders; its first group is the index.
pub const PLACEHOLDER_PATTERN: &'static str = "\\{([1-9]\\d*)}";

/// What the regex engine captures: for each non-overlapping match of
/// `pattern` in `haystack`, from left to right, the text of the first group
/// (`None` where the group took no part in the match). `None` as a whole
/// where the engine refuses `pattern`, as invalid or as too large.
pub uninterp spec fn regex_first_groups(pattern: Seq<char>, haystack: Seq<char>) -> Option<Seq<Option<Seq<char>>>>;

/// What the regex engine makes of `haystack` when every non-overlapping match
/// of `pattern` is replaced by `replacement`, taken literally. `None` where
/// the engine refuses `pattern`, as invalid or as too large.
pub uninterp spec fn regex_replace_all_literal(pattern: Seq<char>, haystack: Seq<char>, replacement: Seq<char>) -> Option<Seq<char>>;

/// The characters of each captured group of a sequence.
pub open spec fn group_texts(groups: Seq<Option<String>>) -> Seq<Option<Seq<char>>> {
    Seq::new(
        groups.len(),
        |i: int|
            match groups[i] {
                Some(s) => Some(s@),
                None => None,
            },
    )
}

/// The view of what `first_groups` returns.
pub open spec fn captured(res: Option<Vec<Option<String>>>) -> Option<Seq<Option<Seq<char>>>> {
    match res {
        Some(v) => Some(group_texts(v@)),
        None => None,
    }
}

/// Calls `regex::Regex::new` on `pattern` and, where that succeeds,
/// `Regex::captures_iter` on `haystack`, taking group 1 of each match.
/// The contract only gives the outcome its name, `regex_first_groups`:
/// nothing is claimed about which text the engine matches.
#[verifier::external_body]
fn first_groups(pattern: &str, haystack: &str) -> (res: Option<Vec<Option<String>>>)
    ensures
        captured(res) == regex_first_groups(pattern@, haystack@),
{
    match regex::Regex::new(pattern) {
        Ok(re) => Some(
            re.captures_iter(haystack).map(|c| c.get(1).map(|m| m.as_str().to_string())).collect(),
        ),
        Err(_) => None,
    }
}

/// Calls `regex::Regex::new` on `pattern` and, where that succeeds,
/// `Regex::replace_all` on `haystack` with `regex::NoExpand(replacement)`,
/// so that `$` in the replacement stands for itself.
/// The contract only gives the outcome its name, `regex_replace_all_literal`.
#[verifier::external_body]
fn replace_all_literal(pattern: &str, haystack: &str, replacement: &str) -> (res: Option<String>)
    ensures
        optional_text(res) == regex_replace_all_literal(pattern@, haystack@, replacement@),
{
    match regex::Regex::new(pattern) {
        Ok(re) => Some(re.replace_all(haystack, regex::NoExpand(replacement)).into_owned()),
        Err(_) => None,
    }
}

/// The regular expression that matches the placeholder of index `n` and
/// nothing else: an escaped opening brace, `n` in base 10, a closing brace.
pub open spec fn index_pattern(n: usize) -> Seq<char> {
    seq!['\\', '{'] + decimal_text(n as nat) + seq!['}']
}

/// Builds the regular expression that matches the placeholder of index `n`.
pub fn index_pattern_string(n: usize) -> (res: String)
    ensures
        res@ == index_pattern(n),
{
    proof {
        reveal_strlit("\\{");
        reveal_strlit("}");
    }
    let mut p = String::from_str("\\{");
    let digits = decimal_string(n);
    p.append(digits.as_str());
    p.append("}");
    assert(p@ =~= index_pattern(n));
    p
}

/// The group is the text of the index `n`.
pub open spec fn denotes(group: Option<Seq<char>>, n: usize) -> bool {
    match group {
        Some(text) => index_of_text(text) == Some(n),
        None => false,
    }
}

/// `seen` with the index of `group` added at its end, unless the group
/// denotes no index or its index is in `seen` already.
pub open spec fn with_index_of(seen: Seq<usize>, group: Option<Seq<char>>) -> Seq<usize> {
    match group {
        Some(text) => match index_of_text(text) {
            Some(n) => if seen.contains(n) {
                seen
            } else {
                seen.push(n)
            },
            None => seen,
        },
        None => seen,
    }
}

/// The distinct indices that the captured groups denote, each at the place
/// of its first appearance.
pub open spec fn distinct_indices(groups: Seq<Option<Seq<char>>>) -> Seq<usize>
    decreases groups.len(),
{
    if groups.len() == 0 {
        Seq::empty()
    } else {
        with_index_of(distinct_indices(groups.drop_last()), groups.last())
    }
}

/// Whether `n` is among `seen`.
fn has_index(seen: &Vec<usize>, n: usize) -> (res: bool)
    ensures
        res == seen@.contains(n),
{
    let mut i: usize = 0;
    while i < seen.len()
        invariant
            0 <= i <= seen.len(),
            forall|j: int| 0 <= j < i ==> seen@[j] != n,
        decreases seen.len() - i,
    {
        if seen[i] == n {
            return true;
        }
        i = i + 1;
    }
    false
}

/// Collects the distinct indices among the captured groups, in the order in
/// which each first appears.
pub fn collect_indices(groups: &Vec<Option<String>>) -> (res: Vec<usize>)
    ensures
        res@ == distinct_indices(group_texts(groups@)),
{
    let mut seen: Vec<usize> = Vec::new();
    let mut i: usize = 0;
    assert(group_texts(groups@).take(0) =~= Seq::empty());
    while i < groups.len()
        invariant
            0 <= i <= groups.len(),
            seen@ == distinct_indices(group_texts(groups@).take(i as int)),
        decreases groups.len() - i,
    {
        proof {
            let all = group_texts(groups@);
            assert(all.take(i + 1).drop_last() =~= all.take(i as int));
            assert(all.take(i + 1).last() == all[i as int]);
        }
        match &groups[i] {
            Some(text) => {
                match parse_index(text.as_str()) {
                    Some(n) => {
                        if !has_index(&seen, n) {
                            seen.push(n);
                        }
                    },
                    None => {},
                }
            },
            None => {},
        }
        i = i + 1;
    }
    assert(group_texts(groups@).take(i as int) =~= group_texts(groups@));
    seen
}

/// The text after the pass for index `n`: where `n` has an argument, every
/// match of the placeholder's pattern is replaced by that argument; where
/// it has none, or the engine refuses the pattern, the text stays as it is.
pub open spec fn substitute_index(text: Seq<char>, n: usize, args: Seq<Seq<char>>) -> Seq<char> {
    if 1 <= n <= args.len() {
        match regex_replace_all_literal(index_pattern(n), text, args[n - 1]) {
            Some(replaced) => replaced,
            None => text,
        }
    } else {
        text
    }
}

/// The text after one pass for each of `indices`, in their order, each pass
/// working on what the one before it left.
pub open spec fn substitute_all(text: Seq<char>, indices: Seq<usize>, args: Seq<Seq<char>>) -> Seq<char>
    decreases indices.len(),
{
    if indices.len() == 0 {
        text
    } else {
        substitute_index(substitute_all(text, indices.drop_last(), args), indices.last(), args)
    }
}

/// The indices of the placeholders of `template`: the distinct indices among
/// what the placeholder pattern captures in it, in order of first
/// appearance; none where the engine refuses the pattern.
pub open spec fn placeholders_of(template: Seq<char>) -> Seq<usize> {
    match regex_first_groups(PLACEHOLDER_PATTERN@, template) {
        Some(groups) => distinct_indices(groups),
        None => Seq::empty(),
    }
}

/// What `format` returns.
pub open spec fn formatted(template: Seq<char>, args: Seq<Seq<char>>) -> Seq<char> {
    substitute_all(template, placeholders_of(template), args)
}

/// Runs the passes for `indices` over `text`, one after the other.
pub fn substitute(text: &str, indices: &Vec<usize>, args: &[String]) -> (res: String)
    ensures
        res@ == substitute_all(text@, indices@, texts(args@)),
{
    let mut current = String::from_str(text);
    let mut i: usize = 0;
    assert(indices@.take(0) =~= Seq::empty());
    while i < indices.len()
        invariant
            0 <= i <= indices.len(),
            current@ == substitute_all(text@, indices@.take(i as int), texts(args@)),
        decreases indices.len() - i,
    {
        let n: usize = indices[i];
        proof {
            assert(indices@.take(i + 1).drop_last() =~= indices@.take(i as int));
            assert(indices@.take(i + 1).last() == n);
        }
        if 1 <= n && n <= args.len() {
            let pattern = index_pattern_string(n);
            match replace_all_literal(pattern.as_str(), current.as_str(), args[n - 1].as_str()) {
                Some(replaced) => {
                    current = replaced;
                },
                None => {},
            }
        }
        i = i + 1;
    }
    assert(indices@.take(i as int) =~= indices@);
    current
}

/// Substitutes the arguments for the placeholders of `string`: `{n}` becomes
/// the `n`-th argument, counted from 1, wherever it stands; a placeholder
/// without an argument stays as it is, and an argument without a
/// placeholder is not used.
pub fn format(string: &str, args: &[String]) -> (res: String)
    ensures
        res@ == formatted(string@, texts(args@)),
{
    match first_groups(PLACEHOLDER_PATTERN, string) {
        Some(groups) => {
            let indices = collect_indices(&groups);
            substitute(string, &indices, args)
        },
        None => String::from_str(string),
    }
}

/// A template in which no placeholder is found comes back unchanged,
/// whatever the arguments.
pub proof fn lemma_format_without_placeholders(template: Seq<char>, args: Seq<Seq<char>>)
    requires
        placeholders_of(template).len() == 0,
    ensures
        formatted(template, args) == template,
{
}

/// Without arguments every template comes back unchanged.
pub proof fn lemma_format_without_arguments(template: Seq<char>)
    ensures
        formatted(template, Seq::empty()) == template,
{
    lemma_substitute_without_arguments(template, placeholders_of(template));
}

/// Without arguments no pass changes the text.
pub proof fn lemma_substitute_without_arguments(text: Seq<char>, indices: Seq<usize>)
    ensures
        substitute_all(text, indices, Seq::empty()) == text,
    decreases indices.len(),
{
    if indices.len() > 0 {
        lemma_substitute_without_arguments(text, indices.drop_last());
    }
}

/// Arguments behind the highest index among the passes are not used: the
/// result is that of the first `k` arguments alone, where no index is
/// above `k`.
pub proof fn lemma_substitute_ignores_extra_arguments(
    text: Seq<char>,
    indices: Seq<usize>,
    args: Seq<Seq<char>>,
    k: int,
)
    requires
        0 <= k <= args.len(),
        forall|i: int| 0 <= i < indices.len() ==> #[trigger] indices[i] <= k,
    ensures
        substitute_all(text, indices, args) == substitute_all(text, indices, args.take(k)),
    decreases indices.len(),
{
    if indices.len() > 0 {
        let front = indices.drop_last();
        assert forall|i: int| 0 <= i < front.len() implies #[trigger] front[i] <= k by {
            assert(front[i] == indices[i]);
        }
        lemma_substitute_ignores_extra_arguments(text, front, args, k);
        let n = indices.last();
        assert(n == indices[indices.len() - 1]);
        if 1 <= n {
            assert(args.take(k)[n - 1] == args[n - 1]);
        }
    }
}

/// Arguments behind the highest placeholder of a template are not used.
pub proof fn lemma_format_ignores_extra_arguments(
    template: Seq<char>,
    args: Seq<Seq<char>>,
    k: int,
)
    requires
        0 <= k <= args.len(),
        forall|i: int|
            0 <= i < placeholders_of(template).len() ==> #[trigger] placeholders_of(template)[i]
                <= k,
    ensures
        formatted(template, args) == formatted(template, args.take(k)),
{
    lemma_substitute_ignores_extra_arguments(template, placeholders_of(template), args, k);
}

/// A placeholder whose index has no argument is left as it stands: its pass
/// changes nothing.
pub proof fn lemma_index_without_argument(text: Seq<char>, n: usize, args: Seq<Seq<char>>)
    requires
        n > args.len(),
    ensures
        substitute_index(text, n, args) == text,
{
}

/// No index occurs twice among the distinct indices, so that each index
/// gets one pass, however often its placeholder stands in the template.
pub proof fn lemma_distinct_indices_no_duplicates(groups: Seq<Option<Seq<char>>>)
    ensures
        distinct_indices(groups).no_duplicates(),
    decreases groups.len(),
{
    if groups.len() > 0 {
        lemma_distinct_indices_no_duplicates(groups.drop_last());
    }
}

/// The distinct indices are those that the groups denote, all of them and
/// no others.
pub proof fn lemma_distinct_indices_members(groups: Seq<Option<Seq<char>>>, n: usize)
    ensures
        distinct_indices(groups).contains(n) <==> exists|k: int|
            0 <= k < groups.len() && #[trigger] denotes(groups[k], n),
    decreases groups.len(),
{
    if groups.len() > 0 {
        let front = groups.drop_last();
        let last = groups.last();
        let seen = distinct_indices(front);
        let all = distinct_indices(groups);
        lemma_distinct_indices_members(front, n);
        assert(all == with_index_of(seen, last));
        assert(last == groups[groups.len() - 1]);
        assert(all.len() >= seen.len());
        assert(forall|j: int| 0 <= j < seen.len() ==> all[j] == seen[j]);
        if all.contains(n) {
            let j = choose|j: int| 0 <= j < all.len() && all[j] == n;
            if j < seen.len() {
                assert(seen[j] == n);
                assert(seen.contains(n));
                let k = choose|k: int| 0 <= k < front.len() && #[trigger] denotes(front[k], n);
                assert(front[k] == groups[k]);
                assert(denotes(groups[k], n));
            } else {
                assert(denotes(groups[groups.len() - 1], n));
            }
        }
        if exists|k: int| 0 <= k < groups.len() && #[trigger] denotes(groups[k], n) {
            let k = choose|k: int| 0 <= k < groups.len() && #[trigger] denotes(groups[k], n);
            if k < front.len() {
                assert(front[k] == groups[k]);
                assert(denotes(front[k], n));
                assert(seen.contains(n));
                let j = choose|j: int| 0 <= j < seen.len() && seen[j] == n;
                assert(all[j] == n);
            } else {
                assert(denotes(last, n));
                if seen.contains(n) {
                    let j = choose|j: int| 0 <= j < seen.len() && seen[j] == n;
                    assert(all[j] == n);
                } else {
                    assert(all == seen.push(n));
                    assert(all[seen.len() as int] == n);
                }
            }
        }
    } else {
        assert(distinct_indices(groups) =~= Seq::empty());
    }
}

/// Where every placeholder found in a template has the same index, however
/// many there are, formatting is the single pass for that index.
pub proof fn lemma_format_repeated_index(template: Seq<char>, n: usize, args: Seq<Seq<char>>)
    requires
        regex_first_groups(PLACEHOLDER_PATTERN@, template) matches Some(groups) && groups.len() > 0
            && (forall|k: int| 0 <= k < groups.len() ==> #[trigger] denotes(groups[k], n)),
    ensures
        formatted(template, args) == substitute_index(template, n, args),
{
    let groups = regex_first_groups(PLACEHOLDER_PATTERN@, template)->Some_0;
    lemma_repeated_index(groups, n);
    let indices = distinct_indices(groups);
    assert(indices.drop_last() =~= Seq::empty());
    assert(indices.last() == n);
    assert(substitute_all(template, indices.drop_last(), args) == template);
}

/// Groups that all denote one index have that index as their only
/// distinct one.
pub proof fn lemma_repeated_index(groups: Seq<Option<Seq<char>>>, n: usize)
    requires
        groups.len() > 0,
        forall|k: int|
            0 <= k < groups.len() ==> #[trigger] denotes(groups[k], n),
    ensures
        distinct_indices(groups) == seq![n],
    decreases groups.len(),
{
    let front = groups.drop_last();
    assert(groups.last() == groups[groups.len() - 1]);
    assert(denotes(groups[groups.len() - 1], n));
    if front.len() == 0 {
        assert(distinct_indices(front) =~= Seq::empty());
        assert(Seq::<usize>::empty().push(n) =~= seq![n]);
    } else {
        assert forall|k: int| 0 <= k < front.len() implies #[trigger] denotes(front[k], n) by {
            assert(front[k] == groups[k]);
        }
        lemma_repeated_index(front, n);
        assert(seq![n][0] == n);
        assert(seq![n].contains(n));
    }
}

/// The pattern of the pass for an index that was read from a captured text
/// is that text between an escaped opening brace and a closing brace.
pub proof fn lemma_index_pattern_holds_text(text: Seq<char>, n: usize)
    requires
        index_of_text(text) == Some(n),
    ensures
        index_pattern(n) == seq!['\\', '{'] + text + seq!['}'],
{
    lemma_index_text_unique(text);
}

} // verus!
