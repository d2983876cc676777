use vstd::prelude::*;
use itertools::Itertools;
use crate::export::ExportKey;
use crate::root::{
    backslash_from, find_backslash, first_segment, root_named, text_is, unknown_root_msg, uppercase, upper_of,
    RootKey, RootKeyParseError,
};

verus! {

/// The command line: one operation.
#[derive(Debug)]
pub struct Cli {
    pub command: Commands,
}

/// The operations.
#[derive(Debug)]
pub enum Commands {
    /// Export registry hive files.
    Export(ExportArgs),
    /// Interrogate registry hive files.
    Interrogate(InterrogateArgs),
}

/// Where to export and which keys.
#[derive(Debug)]
pub struct ExportArgs {
    pub output_path: String,
    pub keys: Vec<String>,
}

/// The hive files to interrogate.
#[derive(Debug)]
pub struct InterrogateArgs {
    pub input_hive: Vec<String>,
}

/// The text with each pair of backslashes made one, pairs taken from left to
/// right without overlap.
pub open spec fn backslashes_collapsed(s: Seq<char>) -> Seq<char>
    decreases s.len(),
{
    if s.len() < 2 {
        s
    } else if s[0] == '\\' && s[1] == '\\' {
        seq!['\\'] + backslashes_collapsed(s.subrange(2, s.len() as int))
    } else {
        seq![s[0]] + backslashes_collapsed(s.subrange(1, s.len() as int))
    }
}

/// The text with each pair of backslashes made one.
pub fn collapse_backslashes(s: &str) -> (r: String)
    ensures
        r@ == backslashes_collapsed(s@),
{
    proof {
        assert(s@.subrange(0, s@.len() as int) =~= s@);
    }
    let n = s.unicode_len();
    let mut out = String::new();
    let mut i: usize = 0;
    while i < n
        invariant
            n == s@.len(),
            i <= n,
            out@ + backslashes_collapsed(s@.subrange(i as int, n as int)) == backslashes_collapsed(s@),
        decreases n - i,
    {
        let ghost rest = s@.subrange(i as int, n as int);
        if i + 1 < n && s.get_char(i) == '\\' && s.get_char(i + 1) == '\\' {
            out.append("\\");
            proof {
                assert(rest.subrange(2, rest.len() as int) =~= s@.subrange(i + 2, n as int));
                assert("\\"@ =~= seq!['\\']) by {
                    reveal_strlit("\\");
                }
            }
            i = i + 2;
        } else {
            out.append(s.substring_char(i, i + 1));
            proof {
                assert(rest.subrange(1, rest.len() as int) =~= s@.subrange(i + 1, n as int));
                assert(s@.subrange(i as int, i + 1) =~= seq![rest[0]]);
            }
            i = i + 1;
        }
    }
    proof {
        assert(s@.subrange(n as int, n as int) =~= Seq::<char>::empty());
        assert(out@ + Seq::<char>::empty() =~= out@);
    }
    out
}

/// A `--keys` argument as it is parsed: upper-cased, with doubled backslashes collapsed.
pub open spec fn normalized_key(k: Seq<char>) -> Seq<char> {
    backslashes_collapsed(upper_of(k))
}

/// The message for a key argument that names no sub-key.
pub open spec fn no_sub_key_msg(k: Seq<char>) -> Seq<char> {
    "No sub key given in '"@ + k + "'"@
}

/// The root key that a key argument names, where it also names a sub-key.
pub open spec fn parsed_root(k: Seq<char>) -> Option<RootKey> {
    let n = normalized_key(k);
    if backslash_from(n, 0) < n.len() {
        root_named(upper_of(first_segment(n)))
    } else {
        None
    }
}

/// The sub-key part of a normalized key argument: what follows its first backslash.
pub open spec fn sub_key_of(n: Seq<char>) -> Seq<char> {
    n.subrange(backslash_from(n, 0) + 1, n.len() as int)
}

impl ExportArgs {
    /// The directory to export to.
    pub fn get_output_path(&self) -> (r: &str)
        ensures
            r@ == self.output_path@,
    {
        self.output_path.as_str()
    }

    /// Splits a normalized key argument into its root key and sub-key path.
    pub fn split_key(normalized: &str) -> (r: Result<(RootKey, String), RootKeyParseError>)
        ensures
            match root_named(upper_of(first_segment(normalized@))) {
                None => r is Err && r->Err_0.msg@ == unknown_root_msg(upper_of(first_segment(normalized@))),
                Some(k) => if backslash_from(normalized@, 0) < normalized@.len() {
                    r is Ok && r->Ok_0.0 == k && r->Ok_0.1@ == sub_key_of(normalized@)
                } else {
                    r is Err && r->Err_0.msg@ == no_sub_key_msg(normalized@)
                },
            },
    {
        let root = match RootKey::parse(normalized) {
            Ok(k) => k,
            Err(e) => return Err(e),
        };
        let k = find_backslash(normalized);
        let n = normalized.unicode_len();
        if k >= n {
            let mut msg = String::from_str("No sub key given in '");
            msg.append(normalized);
            msg.append("'");
            return Err(RootKeyParseError { msg });
        }
        Ok((root, String::from_str(normalized.substring_char(k + 1, n))))
    }

    /// Parses one key argument: its root key and sub-key path.
    pub fn parse_key(key: &str) -> (r: Result<(RootKey, String), RootKeyParseError>)
        ensures
            r is Ok <==> parsed_root(key@) is Some,
            r is Ok ==> r->Ok_0.0 == parsed_root(key@)->Some_0 && r->Ok_0.1@ == sub_key_of(normalized_key(key@)),
    {
        let upper = uppercase(key);
        let normalized = collapse_backslashes(upper.as_str());
        ExportArgs::split_key(normalized.as_str())
    }

    /// The keys to export, one per root key named by an argument, each with the
    /// sub-keys given under it, once each; and an error for each argument that
    /// could not be parsed. The order of the keys is the grouping's hash order.
    pub fn build_export_keys(&self) -> (r: (Vec<ExportKey>, Vec<RootKeyParseError>))
        ensures
            r.1@.len() == self.keys@.filter(|k: String| parsed_root(k@) is None).len(),
            forall|i: int, j: int|
                0 <= i < j < r.0@.len() ==> #[trigger] r.0@[i].root != #[trigger] r.0@[j].root,
            forall|i: int|
                0 <= i < r.0@.len() ==> exists|j: int|
                    0 <= j < self.keys@.len() && #[trigger] parsed_root(self.keys@[j]@) == Some(
                        #[trigger] r.0@[i].root,
                    ),
            forall|j: int|
                0 <= j < self.keys@.len() && #[trigger] parsed_root(self.keys@[j]@) is Some ==> exists|i: int|
                    0 <= i < r.0@.len() && #[trigger] r.0@[i].root == parsed_root(self.keys@[j]@)->Some_0,
            forall|i: int|
                0 <= i < r.0@.len() ==> #[trigger] holds_sub_keys_of(self.keys@, r.0@[i].root, r.0@[i].sub_keys@),
    {
        let mut pairs: Vec<(RootKey, String)> = Vec::new();
        let mut errors: Vec<RootKeyParseError> = Vec::new();
        // `from[p]` is the argument that pair `p` came from; `at[j]` the pair of argument `j`.
        let ghost mut from: Seq<int> = seq![];
        let ghost mut at: Seq<int> = seq![];
        let mut i: usize = 0;
        while i < self.keys.len()
            invariant
                i <= self.keys@.len(),
                errors@.len() == self.keys@.take(i as int).filter(|k: String| parsed_root(k@) is None).len(),
                from.len() == pairs@.len(),
                at.len() == i,
                forall|p: int|
                    0 <= p < pairs@.len() ==> 0 <= #[trigger] from[p] < i && parsed_root(self.keys@[from[p]]@)
                        == Some(pairs@[p].0) && pairs@[p].1@ == sub_key_of(normalized_key(self.keys@[from[p]]@)),
                forall|j: int|
                    0 <= j < i && #[trigger] parsed_root(self.keys@[j]@) is Some ==> 0 <= at[j] < pairs@.len()
                        && pairs@[at[j]].0 == parsed_root(self.keys@[j]@)->Some_0 && pairs@[at[j]].1@
                        == sub_key_of(normalized_key(self.keys@[j]@)),
            decreases self.keys@.len() - i,
        {
            match ExportArgs::parse_key(self.keys[i].as_str()) {
                Ok(pair) => {
                    proof {
                        from = from.push(i as int);
                        at = at.push(pairs@.len() as int);
                    }
                    pairs.push(pair);
                },
                Err(e) => {
                    proof {
                        at = at.push(0);
                    }
                    errors.push(e);
                },
            }
            proof {
                reveal(Seq::filter);
                assert(self.keys@.take(i + 1).drop_last() =~= self.keys@.take(i as int));
            }
            i = i + 1;
        }
        proof {
            assert(self.keys@.take(i as int) =~= self.keys@);
        }
        let mut keyed: Vec<(u8, usize)> = Vec::new();
        let mut q: usize = 0;
        while q < pairs.len()
            invariant
                q <= pairs@.len(),
                keyed@.len() == q,
                forall|k: int| 0 <= k < q ==> #[trigger] keyed@[k] == (code_of(pairs@[k].0), k as usize),
            decreases pairs@.len() - q,
        {
            keyed.push((root_code(pairs[q].0), q));
            q = q + 1;
        }
        let grouped = group_map(&keyed);
        proof {
            reveal(keys_distinct);
        }
        let mut groups: Vec<ExportKey> = Vec::new();
        let mut g: usize = 0;
        while g < grouped.len()
            invariant
                g <= grouped@.len(),
                groups@.len() == g,
                forall|a: int, b: int| 0 <= a < b < grouped@.len() ==> #[trigger] grouped@[a].0 != #[trigger] grouped@[b].0,
                forall|a: int| 0 <= a < g ==> #[trigger] groups@[a].root == decoded_root(grouped@[a].0),
                forall|a: int| 0 <= a < g ==> #[trigger] grouped@[a].0 <= 6,
                grouped_from(keyed@, grouped@),
                keyed@.len() == pairs@.len(),
                forall|k: int| 0 <= k < pairs@.len() ==> #[trigger] keyed@[k] == (code_of(pairs@[k].0), k as usize),
                forall|a: int| 0 <= a < g ==> #[trigger] members_exact(pairs@, groups@[a].root, grouped@[a].1@),
                forall|a: int|
                    0 <= a < g ==> #[trigger] collected(pairs@, groups@[a].sub_keys@, grouped@[a].1@),
            decreases grouped@.len() - g,
        {
            let code = grouped[g].0;
            proof {
                reveal(groups_nonempty);
                reveal(values_from_pairs);
                assert(grouped@[g as int].1@.len() > 0);
                assert(0 <= g < grouped@.len() && 0 <= 0 < grouped@[g as int].1@.len());
                let k = choose|k: int|
                    #![trigger keyed@[k]]
                    0 <= k < keyed@.len() && keyed@[k] == (grouped@[g as int].0, grouped@[g as int].1@[0]);
                assert(keyed@[k] == (code_of(pairs@[k].0), k as usize));
            }
            let members = &grouped[g].1;
            proof {
                reveal(values_from_pairs);
                assert forall|u: int| 0 <= u < members@.len() implies #[trigger] members@[u] < pairs@.len() by {
                    assert(0 <= g < grouped@.len() && 0 <= u < grouped@[g as int].1@.len());
                    let k = choose|k: int|
                        #![trigger keyed@[k]]
                        0 <= k < keyed@.len() && keyed@[k] == (grouped@[g as int].0, grouped@[g as int].1@[u]);
                    assert(keyed@[k] == (code_of(pairs@[k].0), k as usize));
                }
            }
            let sub_keys = collect_sub_keys(&pairs, members);
            let _n = pairs.len();
            proof {
                reveal(collected);
                lemma_members_exact(pairs@, keyed@, grouped@, g as int);
            }
            groups.push(ExportKey::new(root_of_code(code), sub_keys));
            g = g + 1;
        }
        proof {
            assert forall|a: int, b: int| 0 <= a < b < groups@.len() implies #[trigger] groups@[a].root != #[trigger] groups@[b].root by {
                lemma_decoded_root_injective(grouped@[a].0, grouped@[b].0);
            }
            assert forall|a: int| 0 <= a < groups@.len() implies exists|j: int|
                0 <= j < self.keys@.len() && #[trigger] parsed_root(self.keys@[j]@) == Some(#[trigger] groups@[a].root) by {
                reveal(groups_nonempty);
                reveal(members_exact);
                assert(grouped@[a].1@.len() > 0);
                let v = grouped@[a].1@[0] as int;
                assert(members_exact(pairs@, groups@[a].root, grouped@[a].1@));
                assert(pairs@[v].0 == groups@[a].root);
                let j = from[v];
                assert(parsed_root(self.keys@[j]@) == Some(groups@[a].root));
            }
            assert forall|j: int| 0 <= j < self.keys@.len() && #[trigger] parsed_root(self.keys@[j]@) is Some implies exists|a: int|
                0 <= a < groups@.len() && #[trigger] groups@[a].root == parsed_root(self.keys@[j]@)->Some_0 by {
                reveal(pairs_in_groups);
                let q = at[j];
                assert(keyed@[q] == (code_of(pairs@[q].0), q as usize));
                let (a2, t2) = choose|a2: int, t2: int|
                    #![trigger grouped@[a2].1@[t2]]
                    0 <= a2 < grouped@.len() && 0 <= t2 < grouped@[a2].1@.len() && grouped@[a2].0 == keyed@[q].0
                        && grouped@[a2].1@[t2] == keyed@[q].1;
                assert(groups@[a2].root == decoded_root(code_of(pairs@[q].0)));
            }
            assert forall|a: int| 0 <= a < groups@.len() implies #[trigger] holds_sub_keys_of(
                self.keys@,
                groups@[a].root,
                groups@[a].sub_keys@,
            ) by {
                lemma_group_holds_sub_keys(self.keys@, pairs@, from, at, groups@[a].root, groups@[a].sub_keys@, grouped@[a].1@);
            }
        }
        (groups, errors)
    }
}

/// Whether `x` is the sub-key of some argument whose root is `root`.
pub open spec fn sub_key_under(keys: Seq<String>, root: RootKey, x: Seq<char>) -> bool {
    exists|j: int|
        #![trigger keys[j]]
        0 <= j < keys.len() && parsed_root(keys[j]@) == Some(root) && x == sub_key_of(normalized_key(keys[j]@))
}

/// Whether one of `subs` has the text `x`.
pub open spec fn has_text(subs: Seq<String>, x: Seq<char>) -> bool {
    exists|a: int| #![trigger subs[a]] 0 <= a < subs.len() && subs[a]@ == x
}

/// Whether `subs` holds, once each, the sub-key of every argument whose root
/// is `root`, and no other.
pub open spec fn holds_sub_keys_of(keys: Seq<String>, root: RootKey, subs: Seq<String>) -> bool {
    &&& forall|a: int, b: int| 0 <= a < b < subs.len() ==> #[trigger] subs[a]@ != #[trigger] subs[b]@
    &&& forall|a: int| 0 <= a < subs.len() ==> sub_key_under(keys, root, #[trigger] subs[a]@)
    &&& forall|j: int|
        0 <= j < keys.len() && parsed_root(#[trigger] keys[j]@) == Some(root) ==> has_text(
            subs,
            sub_key_of(normalized_key(keys[j]@)),
        )
}

/// `members` names exactly the pairs whose root is `root`.
#[verifier::opaque]
pub open spec fn members_exact(pairs: Seq<(RootKey, String)>, root: RootKey, members: Seq<usize>) -> bool {
    &&& forall|u: int|
        0 <= u < members.len() ==> #[trigger] members[u] < pairs.len() && pairs[members[u] as int].0 == root
    &&& forall|p: int|
        #![trigger pairs[p]]
        0 <= p < pairs.len() && pairs[p].0 == root ==> exists|u: int|
            #![trigger members[u]]
            0 <= u < members.len() && members[u] == p
}

/// `subs` holds, once each, the sub-keys of the pairs that `members` names.
#[verifier::opaque]
pub open spec fn collected(pairs: Seq<(RootKey, String)>, subs: Seq<String>, members: Seq<usize>) -> bool {
    &&& distinct_texts(subs)
    &&& from_members(pairs, subs, members, members.len() as int)
    &&& covers_members(pairs, subs, members, members.len() as int)
}

/// Group `g` names exactly the pairs of its root.
proof fn lemma_members_exact(
    pairs: Seq<(RootKey, String)>,
    keyed: Seq<(u8, usize)>,
    grouped: Seq<(u8, Vec<usize>)>,
    g: int,
)
    requires
        0 <= g < grouped.len(),
        grouped[g].0 <= 6,
        keyed.len() == pairs.len(),
        pairs.len() <= usize::MAX,
        forall|k: int| 0 <= k < pairs.len() ==> #[trigger] keyed[k] == (code_of(pairs[k].0), k as usize),
        grouped_from(keyed, grouped),
    ensures
        members_exact(pairs, decoded_root(grouped[g].0), grouped[g].1@),
{
    reveal(members_exact);
    let root = decoded_root(grouped[g].0);
    let members = grouped[g].1@;
    assert forall|u: int| 0 <= u < members.len() implies #[trigger] members[u] < pairs.len() && pairs[members[u] as int].0 == root by {
        reveal(values_from_pairs);
        assert(0 <= g < grouped.len() && 0 <= u < grouped[g].1@.len());
        let k = choose|k: int|
            #![trigger keyed[k]]
            0 <= k < keyed.len() && keyed[k] == (grouped[g].0, grouped[g].1@[u]);
        assert(keyed[k] == (code_of(pairs[k].0), k as usize));
        assert(k == members[u] as int);
        lemma_code_round_trip(pairs[k].0, 0);
    }
    assert forall|p: int| #![trigger pairs[p]] 0 <= p < pairs.len() && pairs[p].0 == root implies exists|u: int|
        #![trigger members[u]]
        0 <= u < members.len() && members[u] == p by {
        reveal(pairs_in_groups);
        reveal(keys_distinct);
        assert(keyed[p] == (code_of(pairs[p].0), p as usize));
        let (a2, t2) = choose|a2: int, t2: int|
            #![trigger grouped[a2].1@[t2]]
            0 <= a2 < grouped.len() && 0 <= t2 < grouped[a2].1@.len() && grouped[a2].0 == keyed[p].0
                && grouped[a2].1@[t2] == keyed[p].1;
        lemma_code_round_trip(root, grouped[g].0);
        assert(grouped[a2].0 == grouped[g].0);
        if a2 != g {
            if a2 < g {
                assert(grouped[a2].0 != grouped[g].0);
            } else {
                assert(grouped[g].0 != grouped[a2].0);
            }
        }
        assert(members[t2] == p);
    }
}

/// A group whose members are exactly the pairs of `root` holds the sub-keys of
/// exactly the arguments of `root`.
proof fn lemma_group_holds_sub_keys(
    keys: Seq<String>,
    pairs: Seq<(RootKey, String)>,
    from: Seq<int>,
    at: Seq<int>,
    root: RootKey,
    subs: Seq<String>,
    members: Seq<usize>,
)
    requires
        from.len() == pairs.len(),
        at.len() == keys.len(),
        forall|p: int|
            0 <= p < pairs.len() ==> 0 <= #[trigger] from[p] < keys.len() && parsed_root(keys[from[p]]@)
                == Some(pairs[p].0) && pairs[p].1@ == sub_key_of(normalized_key(keys[from[p]]@)),
        forall|j: int|
            0 <= j < keys.len() && #[trigger] parsed_root(keys[j]@) is Some ==> 0 <= at[j] < pairs.len()
                && pairs[at[j]].0 == parsed_root(keys[j]@)->Some_0 && pairs[at[j]].1@ == sub_key_of(
                normalized_key(keys[j]@),
            ),
        members_exact(pairs, root, members),
        collected(pairs, subs, members),
    ensures
        holds_sub_keys_of(keys, root, subs),
{
    reveal(members_exact);
    reveal(collected);
    reveal(distinct_texts);
    reveal(from_members);
    reveal(covers_members);
    assert forall|a: int| 0 <= a < subs.len() implies sub_key_under(keys, root, #[trigger] subs[a]@) by {
        let u = choose|u: int| #![trigger members[u]] 0 <= u < members.len() && subs[a]@ == pairs[members[u] as int].1@;
        let v = members[u] as int;
        assert(members[u] < pairs.len() && pairs[members[u] as int].0 == root);
        let j = from[v];
        assert(0 <= j < keys.len() && parsed_root(keys[j]@) == Some(root) && subs[a]@ == sub_key_of(normalized_key(keys[j]@)));
        assert(keys[j] == keys[j]);
    }
    assert forall|j: int| 0 <= j < keys.len() && parsed_root(#[trigger] keys[j]@) == Some(root) implies has_text(
        subs,
        sub_key_of(normalized_key(keys[j]@)),
    ) by {
        assert(parsed_root(keys[j]@) is Some);
        let q = at[j];
        assert(pairs[q] == pairs[q]);
        let u = choose|u: int| #![trigger members[u]] 0 <= u < members.len() && members[u] == q;
        let a = choose|a: int| #![trigger subs[a]] 0 <= a < subs.len() && subs[a]@ == pairs[members[u] as int].1@;
        assert(subs[a]@ == sub_key_of(normalized_key(keys[j]@)));
    }
    assert forall|a: int, b: int| 0 <= a < b < subs.len() implies #[trigger] subs[a]@ != #[trigger] subs[b]@ by {}
}

/// No two of `subs` have the same text.
#[verifier::opaque]
pub open spec fn distinct_texts(subs: Seq<String>) -> bool {
    forall|a: int, b: int| 0 <= a < b < subs.len() ==> #[trigger] subs[a]@ != #[trigger] subs[b]@
}

/// Every one of `subs` is the sub-key of one of the first `n` pairs that `members` names.
#[verifier::opaque]
pub open spec fn from_members(pairs: Seq<(RootKey, String)>, subs: Seq<String>, members: Seq<usize>, n: int) -> bool {
    forall|a: int|
        #![trigger subs[a]]
        0 <= a < subs.len() ==> exists|u: int|
            #![trigger members[u]]
            0 <= u < n && subs[a]@ == pairs[members[u] as int].1@
}

/// The sub-key of each of the first `n` pairs that `members` names is one of `subs`.
#[verifier::opaque]
pub open spec fn covers_members(pairs: Seq<(RootKey, String)>, subs: Seq<String>, members: Seq<usize>, n: int) -> bool {
    forall|u: int|
        #![trigger members[u]]
        0 <= u < n ==> exists|a: int|
            #![trigger subs[a]]
            0 <= a < subs.len() && subs[a]@ == pairs[members[u] as int].1@
}

/// One step of collecting sub-keys: the text `x` of the next member's pair
/// was either already held or has been added.
proof fn lemma_collect_step(
    pairs: Seq<(RootKey, String)>,
    members: Seq<usize>,
    before: Seq<String>,
    after: Seq<String>,
    x: String,
    added: bool,
    t: int,
)
    requires
        0 <= t < members.len(),
        members[t] < pairs.len(),
        x@ == pairs[members[t] as int].1@,
        distinct_texts(before),
        from_members(pairs, before, members, t),
        covers_members(pairs, before, members, t),
        added ==> after == before.push(x) && forall|a: int| 0 <= a < before.len() ==> before[a]@ != x@,
        !added ==> after == before && exists|a: int| 0 <= a < before.len() && before[a]@ == x@,
    ensures
        distinct_texts(after),
        from_members(pairs, after, members, t + 1),
        covers_members(pairs, after, members, t + 1),
{
    reveal(distinct_texts);
    reveal(from_members);
    reveal(covers_members);
    assert forall|a: int, b: int| 0 <= a < b < after.len() implies #[trigger] after[a]@ != #[trigger] after[b]@ by {
        if b < before.len() {
            assert(after[a] == before[a] && after[b] == before[b]);
        } else {
            assert(after[a] == before[a]);
        }
    }
    assert forall|a: int| #![trigger after[a]] 0 <= a < after.len() implies exists|u: int|
        #![trigger members[u]]
        0 <= u < t + 1 && after[a]@ == pairs[members[u] as int].1@ by {
        if a < before.len() {
            assert(after[a] == before[a]);
            let u = choose|u: int| #![trigger members[u]] 0 <= u < t && before[a]@ == pairs[members[u] as int].1@;
            assert(0 <= u < t + 1 && after[a]@ == pairs[members[u] as int].1@);
        } else {
            assert(after[a] == x);
            assert(after[a]@ == pairs[members[t] as int].1@);
        }
    }
    assert forall|u: int| #![trigger members[u]] 0 <= u < t + 1 implies exists|a: int|
        #![trigger after[a]]
        0 <= a < after.len() && after[a]@ == pairs[members[u] as int].1@ by {
        if u < t {
            let a = choose|a: int| #![trigger before[a]] 0 <= a < before.len() && before[a]@ == pairs[members[u] as int].1@;
            assert(after[a] == before[a]);
        } else if added {
            assert(after[before.len() as int] == x);
        } else {
            let a = choose|a: int| 0 <= a < before.len() && before[a]@ == x@;
            assert(after[a] == before[a]);
        }
    }
}

/// The sub-keys of the pairs that `members` names, once each, in order of first appearance.
fn collect_sub_keys(pairs: &Vec<(RootKey, String)>, members: &Vec<usize>) -> (r: Vec<String>)
    requires
        forall|u: int| 0 <= u < members@.len() ==> #[trigger] members@[u] < pairs@.len(),
    ensures
        distinct_texts(r@),
        from_members(pairs@, r@, members@, members@.len() as int),
        covers_members(pairs@, r@, members@, members@.len() as int),
{
    let mut sub_keys: Vec<String> = Vec::new();
    proof {
        reveal(distinct_texts);
        reveal(from_members);
        reveal(covers_members);
    }
    let mut t: usize = 0;
    while t < members.len()
        invariant
            t <= members@.len(),
            forall|u: int| 0 <= u < members@.len() ==> #[trigger] members@[u] < pairs@.len(),
            distinct_texts(sub_keys@),
            from_members(pairs@, sub_keys@, members@, t as int),
            covers_members(pairs@, sub_keys@, members@, t as int),
        decreases members@.len() - t,
    {
        let m = members[t];
        let s = &pairs[m].1;
        let mut k: usize = 0;
        while k < sub_keys.len() && !text_is(&sub_keys[k], s.as_str())
            invariant
                k <= sub_keys@.len(),
                forall|a: int| 0 <= a < k ==> sub_keys@[a]@ != s@,
            decreases sub_keys@.len() - k,
        {
            k = k + 1;
        }
        let ghost before = sub_keys@;
        let added = k == sub_keys.len();
        let x = s.clone();
        let ghost xg = x;
        if added {
            sub_keys.push(x);
        }
        proof {
            lemma_collect_step(pairs@, members@, before, sub_keys@, xg, added, t as int);
        }
        t = t + 1;
    }
    sub_keys
}

/// The root key that `root_of_code` gives for a number.
pub open spec fn decoded_root(c: u8) -> RootKey {
    if c == 0 {
        RootKey::HkeyLocalMachine
    } else if c == 1 {
        RootKey::HkeyCurrentConfig
    } else if c == 2 {
        RootKey::HkeyClassesRoot
    } else if c == 3 {
        RootKey::HkeyCurrentUser
    } else if c == 4 {
        RootKey::HkeyUsers
    } else if c == 5 {
        RootKey::HkeyPerformanceData
    } else {
        RootKey::HkeyDynData
    }
}

proof fn lemma_code_round_trip(r: RootKey, c: u8)
    ensures
        decoded_root(code_of(r)) == r,
        c <= 6 ==> code_of(decoded_root(c)) == c,
{
}

proof fn lemma_decoded_root_injective(a: u8, b: u8)
    requires
        a <= 6,
        b <= 6,
        a != b,
    ensures
        decoded_root(a) != decoded_root(b),
{
}

/// Whether `grouped` groups the values of `keyed` by key: keys distinct, groups
/// not empty, every value of a group from a pair with the group's key, and every
/// pair's value in its key's group.
pub open spec fn grouped_from(keyed: Seq<(u8, usize)>, grouped: Seq<(u8, Vec<usize>)>) -> bool {
    &&& keys_distinct(grouped)
    &&& groups_nonempty(grouped)
    &&& values_from_pairs(keyed, grouped)
    &&& pairs_in_groups(keyed, grouped)
}

/// No two groups have the same key.
#[verifier::opaque]
pub open spec fn keys_distinct(grouped: Seq<(u8, Vec<usize>)>) -> bool {
    forall|a: int, b: int| 0 <= a < b < grouped.len() ==> #[trigger] grouped[a].0 != #[trigger] grouped[b].0
}

/// No group is empty.
#[verifier::opaque]
pub open spec fn groups_nonempty(grouped: Seq<(u8, Vec<usize>)>) -> bool {
    forall|a: int| 0 <= a < grouped.len() ==> #[trigger] grouped[a].1@.len() > 0
}

/// Every value of a group comes from a pair with the group's key.
#[verifier::opaque]
pub open spec fn values_from_pairs(keyed: Seq<(u8, usize)>, grouped: Seq<(u8, Vec<usize>)>) -> bool {
    forall|a: int, t: int|
        #![trigger grouped[a].1@[t]]
        0 <= a < grouped.len() && 0 <= t < grouped[a].1@.len() ==> exists|k: int|
            #![trigger keyed[k]]
            0 <= k < keyed.len() && keyed[k] == (grouped[a].0, grouped[a].1@[t])
}

/// Every pair's value is in the group of its key.
#[verifier::opaque]
pub open spec fn pairs_in_groups(keyed: Seq<(u8, usize)>, grouped: Seq<(u8, Vec<usize>)>) -> bool {
    forall|k: int|
        #![trigger keyed[k]]
        0 <= k < keyed.len() ==> exists|a: int, t: int|
            #![trigger grouped[a].1@[t]]
            0 <= a < grouped.len() && 0 <= t < grouped[a].1@.len() && grouped[a].0 == keyed[k].0
                && grouped[a].1@[t] == keyed[k].1
}

/// A number for each root key, for grouping.
pub open spec fn code_of(k: RootKey) -> u8 {
    match k {
        RootKey::HkeyLocalMachine => 0,
        RootKey::HkeyCurrentConfig => 1,
        RootKey::HkeyClassesRoot => 2,
        RootKey::HkeyCurrentUser => 3,
        RootKey::HkeyUsers => 4,
        RootKey::HkeyPerformanceData => 5,
        RootKey::HkeyDynData => 6,
    }
}

/// The number of a root key.
pub fn root_code(k: RootKey) -> (r: u8)
    ensures
        r == code_of(k),
{
    match k {
        RootKey::HkeyLocalMachine => 0,
        RootKey::HkeyCurrentConfig => 1,
        RootKey::HkeyClassesRoot => 2,
        RootKey::HkeyCurrentUser => 3,
        RootKey::HkeyUsers => 4,
        RootKey::HkeyPerformanceData => 5,
        RootKey::HkeyDynData => 6,
    }
}

/// The root key of a number that `root_code` gives.
pub fn root_of_code(c: u8) -> (r: RootKey)
    ensures
        r == decoded_root(c),
        c <= 6 ==> code_of(r) == c,
{
    match c {
        0 => RootKey::HkeyLocalMachine,
        1 => RootKey::HkeyCurrentConfig,
        2 => RootKey::HkeyClassesRoot,
        3 => RootKey::HkeyCurrentUser,
        4 => RootKey::HkeyUsers,
        5 => RootKey::HkeyPerformanceData,
        _ => RootKey::HkeyDynData,
    }
}

/// Relies on itertools' `into_group_map`, which puts each pair's value in the
/// group of its key, one group per key: every value of a group comes from a
/// pair with that key, and every pair's value is in its key's group. The groups
/// come out in the map's hash order.
#[verifier::external_body]
fn group_map(pairs: &Vec<(u8, usize)>) -> (r: Vec<(u8, Vec<usize>)>)
    ensures
        grouped_from(pairs@, r@),
{
    pairs.iter().copied().into_group_map().into_iter().collect()
}

} // verus!
