//! The committee: the identity provider, the witnesses, their voting power
//! and the quorum that follows from it.

use crate::crypto::{
    bytes_before, lemma_bytes_before_irreflexive, lemma_bytes_before_total,
    lemma_bytes_before_transitive, lemma_public_key_bytes, PublicKey,
};
use vstd::prelude::*;

verus! {

/// The weight of a witness's vote.
pub type VotingPower = u32;

/// What the committee knows of one witness.
#[derive(Debug, Clone)]
pub struct Witness {
    /// The weight of its vote.
    pub voting_power: VotingPower,
    /// Where it listens, as `host:port`.
    pub address: String,
}

/// The identity provider: its key and where it listens.
#[derive(Debug, Clone)]
pub struct Idp {
    pub name: PublicKey,
    pub address: String,
}

/// A witness with its public key.
pub type Member = (PublicKey, Witness);

/// Each member's key sorts before the keys of all members after it.
pub open spec fn names_ascend(members: Seq<Member>) -> bool {
    forall|i: int, j: int|
        0 <= i < j < members.len() ==> bytes_before(
            (#[trigger] members[i]).0@,
            (#[trigger] members[j]).0@,
        )
}

/// No key occurs twice.
pub open spec fn names_distinct(members: Seq<Member>) -> bool {
    forall|i: int, j: int|
        0 <= i < j < members.len() ==> (#[trigger] members[i]).0 != (#[trigger] members[j]).0
}

/// Whether `name` is the key of a member.
pub open spec fn is_member(members: Seq<Member>, name: PublicKey) -> bool {
    exists|i: int| 0 <= i < members.len() && (#[trigger] members[i]).0 == name
}

/// The voting power of all members together.
pub open spec fn total_power(members: Seq<Member>) -> nat
    decreases members.len(),
{
    if members.len() == 0 {
        0
    } else {
        members[0].1.voting_power as nat + total_power(members.drop_first())
    }
}

/// The voting power of `name`: that of the first member with this key, and
/// 0 where there is none.
pub open spec fn power_of(members: Seq<Member>, name: PublicKey) -> nat
    decreases members.len(),
{
    if members.len() == 0 {
        0
    } else if members[0].0 == name {
        members[0].1.voting_power as nat
    } else {
        power_of(members.drop_first(), name)
    }
}

/// The address of `name`: that of the first member with this key, if there
/// is one.
pub open spec fn address_of(members: Seq<Member>, name: PublicKey) -> Option<Seq<char>>
    decreases members.len(),
{
    if members.len() == 0 {
        None
    } else if members[0].0 == name {
        Some(members[0].1.address@)
    } else {
        address_of(members.drop_first(), name)
    }
}

/// Exactly the members have an address.
pub proof fn lemma_address_of_member(members: Seq<Member>, name: PublicKey)
    ensures
        address_of(members, name) is Some <==> is_member(members, name),
    decreases members.len(),
{
    if members.len() > 0 {
        let rest = members.drop_first();
        lemma_address_of_member(rest, name);
        if members[0].0 != name {
            if is_member(members, name) {
                let i = choose|i: int| 0 <= i < members.len() && (#[trigger] members[i]).0 == name;
                assert(rest[i - 1] == members[i]);
            }
            if is_member(rest, name) {
                let i = choose|i: int| 0 <= i < rest.len() && (#[trigger] rest[i]).0 == name;
                assert(members[i + 1] == rest[i]);
            }
        }
    }
}

/// The voting power of `authors` together, each counted as often as it
/// occurs.
pub open spec fn stake(members: Seq<Member>, authors: Seq<PublicKey>) -> nat
    decreases authors.len(),
{
    if authors.len() == 0 {
        0
    } else {
        stake(members, authors.drop_last()) + power_of(members, authors.last())
    }
}

/// The least voting power that makes a quorum: more than two thirds of the
/// total.
pub open spec fn quorum_of(total: nat) -> nat {
    2 * total / 3 + 1
}

/// Members whose keys ascend have distinct keys.
pub proof fn lemma_ascend_distinct(members: Seq<Member>)
    requires
        names_ascend(members),
    ensures
        names_distinct(members),
{
    assert forall|i: int, j: int| 0 <= i < j < members.len() implies (#[trigger] members[i]).0 != (
    #[trigger] members[j]).0 by {
        lemma_bytes_before_irreflexive(members[i].0@);
    }
}

/// Who is no member has no voting power.
pub proof fn lemma_power_of_stranger(members: Seq<Member>, name: PublicKey)
    requires
        !is_member(members, name),
    ensures
        power_of(members, name) == 0,
    decreases members.len(),
{
    if members.len() > 0 {
        assert(members[0].0 != name);
        let rest = members.drop_first();
        assert forall|i: int| 0 <= i < rest.len() implies (#[trigger] rest[i]).0 != name by {
            assert(rest[i] == members[i + 1]);
        }
        lemma_power_of_stranger(rest, name);
    }
}

/// Who has voting power is a member.
pub proof fn lemma_power_of_member(members: Seq<Member>, name: PublicKey)
    ensures
        power_of(members, name) > 0 ==> is_member(members, name),
{
    if !is_member(members, name) {
        lemma_power_of_stranger(members, name);
    }
}

/// No single voting power exceeds the total.
pub proof fn lemma_power_of_bounded(members: Seq<Member>, name: PublicKey)
    ensures
        power_of(members, name) <= total_power(members),
    decreases members.len(),
{
    if members.len() > 0 {
        lemma_power_of_bounded(members.drop_first(), name);
    }
}

proof fn lemma_stake_of_none(authors: Seq<PublicKey>)
    ensures
        stake(Seq::<Member>::empty(), authors) == 0,
    decreases authors.len(),
{
    if authors.len() > 0 {
        lemma_stake_of_none(authors.drop_last());
    }
}

proof fn lemma_stake_split(members: Seq<Member>, authors: Seq<PublicKey>)
    requires
        members.len() > 0,
        names_distinct(members),
        authors.no_duplicates(),
    ensures
        stake(members, authors) == (if authors.contains(members[0].0) {
            members[0].1.voting_power as nat
        } else {
            0
        }) + stake(members.drop_first(), authors),
    decreases authors.len(),
{
    if authors.len() > 0 {
        let head = members[0].0;
        let rest = members.drop_first();
        let init = authors.drop_last();
        let last = authors.last();
        assert forall|i: int, j: int| 0 <= i < init.len() && 0 <= j < init.len() && i
            != j implies init[i] != init[j] by {
            assert(init[i] == authors[i]);
            assert(init[j] == authors[j]);
        }
        lemma_stake_split(members, init);
        if last == head {
            if init.contains(head) {
                let k = choose|k: int| 0 <= k < init.len() && init[k] == head;
                assert(authors[k] == authors[authors.len() - 1]);
            }
            assert(authors[authors.len() - 1] == head);
            assert forall|i: int| 0 <= i < rest.len() implies (#[trigger] rest[i]).0 != head by {
                assert(rest[i] == members[i + 1]);
            }
            lemma_power_of_stranger(rest, head);
        } else {
            if authors.contains(head) {
                let k = choose|k: int| 0 <= k < authors.len() && authors[k] == head;
                assert(init[k] == head);
            }
            if init.contains(head) {
                let k = choose|k: int| 0 <= k < init.len() && init[k] == head;
                assert(authors[k] == head);
            }
        }
    }
}

/// Distinct authors never weigh more than the whole committee.
pub proof fn lemma_stake_bounded(members: Seq<Member>, authors: Seq<PublicKey>)
    requires
        names_distinct(members),
        authors.no_duplicates(),
    ensures
        stake(members, authors) <= total_power(members),
    decreases members.len(),
{
    if members.len() == 0 {
        assert(members =~= Seq::<Member>::empty());
        lemma_stake_of_none(authors);
    } else {
        let rest = members.drop_first();
        assert forall|a: int, b: int| 0 <= a < b < rest.len() implies (#[trigger] rest[a]).0 != (
        #[trigger] rest[b]).0 by {
            assert(rest[a] == members[a + 1]);
            assert(rest[b] == members[b + 1]);
        }
        lemma_stake_split(members, authors);
        lemma_stake_bounded(rest, authors);
    }
}

proof fn lemma_total_power_push(members: Seq<Member>, member: Member)
    ensures
        total_power(members.push(member)) == total_power(members) + member.1.voting_power,
    decreases members.len(),
{
    if members.len() == 0 {
        assert(members.push(member).drop_first() =~= members);
    } else {
        assert(members.push(member).drop_first() =~= members.drop_first().push(member));
        lemma_total_power_push(members.drop_first(), member);
    }
}

proof fn lemma_total_power_insert(members: Seq<Member>, at: int, member: Member)
    requires
        0 <= at <= members.len(),
    ensures
        total_power(members.insert(at, member)) == total_power(members) + member.1.voting_power,
    decreases at,
{
    if at == 0 {
        assert(members.insert(0, member).drop_first() =~= members);
    } else {
        assert(members.insert(at, member).drop_first() =~= members.drop_first().insert(
            at - 1,
            member,
        ));
        lemma_total_power_insert(members.drop_first(), at - 1, member);
    }
}

proof fn lemma_total_power_prefix(members: Seq<Member>, upto: int)
    requires
        0 <= upto <= members.len(),
    ensures
        total_power(members.take(upto)) <= total_power(members),
    decreases members.len() - upto,
{
    if upto < members.len() {
        lemma_total_power_prefix(members, upto + 1);
        assert(members.take(upto + 1) =~= members.take(upto).push(members[upto]));
        lemma_total_power_push(members.take(upto), members[upto]);
    } else {
        assert(members.take(upto) =~= members);
    }
}

/// The committee: one identity provider and the witnesses, sorted by key.
#[derive(Debug)]
pub struct Committee {
    idp: Idp,
    witnesses: Vec<Member>,
    total: VotingPower,
}

impl Committee {
    /// The witnesses with their keys, in the order of the keys.
    pub closed spec fn members(&self) -> Seq<Member> {
        self.witnesses@
    }

    /// The identity provider.
    pub closed spec fn provider(&self) -> Idp {
        self.idp
    }

    /// The keys ascend, and the total voting power fits the machine's
    /// 32 bits.
    #[verifier::type_invariant]
    pub closed spec fn well_formed(&self) -> bool {
        &&& names_ascend(self.witnesses@)
        &&& self.total == total_power(self.witnesses@)
    }

    /// What holds of every committee, for proofs that take one as a value.
    pub open spec fn valid(&self) -> bool {
        &&& names_ascend(self.members())
        &&& total_power(self.members()) <= u32::MAX
    }

    /// Every committee that runs is valid.
    pub proof fn lemma_valid(&self)
        requires
            self.well_formed(),
        ensures
            self.valid(),
    {
    }

    /// A committee of the given witnesses, sorted by key. There is none
    /// where a key occurs twice or the voting power adds up to more than 32
    /// bits hold.
    pub fn new(idp: Idp, witnesses: Vec<Member>) -> (made: Option<Committee>)
        ensures
            made is Some <==> names_distinct(witnesses@) && total_power(witnesses@) <= u32::MAX,
            made matches Some(committee) ==> {
                &&& committee.valid()
                &&& committee.provider() == idp
                &&& committee.members().len() == witnesses@.len()
                &&& forall|member: Member|
                    committee.members().contains(member) <==> witnesses@.contains(member)
            },
    {
        let mut sorted: Vec<Member> = Vec::new();
        let mut total: VotingPower = 0;
        let ghost given = witnesses@;
        let mut queue = witnesses;
        let count = queue.len();
        let mut taken: usize = 0;
        proof {
            assert(given.take(0) =~= Seq::<Member>::empty());
        }
        while taken < count
            invariant
                given == witnesses@,
                count == given.len(),
                0 <= taken <= count,
                queue@.len() == count - taken,
                queue@ =~= given.skip(taken as int),
                names_ascend(sorted@),
                names_distinct(given.take(taken as int)),
                sorted@.len() == taken,
                total == total_power(sorted@),
                total_power(sorted@) == total_power(given.take(taken as int)),
                forall|member: Member|
                    sorted@.contains(member) <==> given.take(taken as int).contains(member),
            decreases count - taken,
        {
            let member = queue.remove(0);
            assert(member == given[taken as int]);
            let ghost before = sorted@;
            let ghost prefix = given.take(taken as int);
            let ghost longer = given.take(taken + 1);
            proof {
                assert(longer =~= prefix.push(member));
                lemma_total_power_push(prefix, member);
                lemma_total_power_prefix(given, taken + 1);
            }
            // Where the new key belongs.
            let mut at: usize = 0;
            while at < sorted.len() && sorted[at].0.sorts_before(&member.0)
                invariant
                    0 <= at <= sorted@.len(),
                    forall|i: int| 0 <= i < at ==> bytes_before((#[trigger] sorted@[i]).0@, member.0@),
                decreases sorted@.len() - at,
            {
                at = at + 1;
            }
            if at < sorted.len() && sorted[at].0 == member.0 {
                proof {
                    lemma_public_key_bytes(sorted@[at as int].0, member.0);
                    assert(sorted@.contains(sorted@[at as int]));
                    let twin = sorted@[at as int];
                    assert(prefix.contains(twin));
                    let k = choose|k: int| 0 <= k < prefix.len() && prefix[k] == twin;
                    assert(given[k] == twin);
                    assert(given[k].0 == given[taken as int].0);
                    assert(!names_distinct(given));
                }
                return None;
            }
            let sum = match total.checked_add(member.1.voting_power) {
                Some(sum) => sum,
                None => {
                    assert(total_power(given) > u32::MAX);
                    return None;
                },
            };
            proof {
                lemma_total_power_insert(before, at as int, member);
                assert forall|i: int, j: int| 0 <= i < j < before.insert(
                    at as int,
                    member,
                ).len() implies bytes_before(
                    (#[trigger] before.insert(at as int, member)[i]).0@,
                    (#[trigger] before.insert(at as int, member)[j]).0@,
                ) by {
                    let after = before.insert(at as int, member);
                    if j == at {
                        assert(after[i] == before[i]);
                    } else if i == at {
                        assert(after[j] == before[j - 1]);
                        let next = before[at as int];
                        lemma_public_key_bytes(next.0, member.0);
                        lemma_bytes_before_total(member.0@, next.0@);
                        if j - 1 > at {
                            lemma_bytes_before_transitive(member.0@, next.0@, before[j - 1].0@);
                        }
                    } else if i < at && j < at {
                        assert(after[i] == before[i] && after[j] == before[j]);
                    } else if i < at && j > at {
                        assert(after[i] == before[i] && after[j] == before[j - 1]);
                    } else {
                        assert(after[i] == before[i - 1] && after[j] == before[j - 1]);
                    }
                }
                assert forall|i: int, j: int| 0 <= i < j < longer.len() implies (
                #[trigger] longer[i]).0 != (#[trigger] longer[j]).0 by {
                    if j == taken {
                        if longer[i].0 == member.0 {
                            assert(prefix[i] == longer[i]);
                            assert(prefix.contains(longer[i]));
                            assert(before.contains(longer[i]));
                            let k = choose|k: int| 0 <= k < before.len() && before[k] == longer[i];
                            lemma_bytes_before_irreflexive(member.0@);
                            if k >= at {
                                let next = before[at as int];
                                lemma_public_key_bytes(next.0, member.0);
                                lemma_bytes_before_total(member.0@, next.0@);
                                if k > at {
                                    lemma_bytes_before_transitive(member.0@, next.0@, before[k].0@);
                                }
                            }
                        }
                    } else {
                        assert(longer[i] == prefix[i] && longer[j] == prefix[j]);
                    }
                }
                assert forall|other: Member|
                    before.insert(at as int, member).contains(other) <==> longer.contains(
                        other,
                    ) by {
                    let after = before.insert(at as int, member);
                    if after.contains(other) {
                        let k = choose|k: int| 0 <= k < after.len() && after[k] == other;
                        if k == at {
                            assert(longer[taken as int] == other);
                        } else {
                            let was = if k < at {
                                k
                            } else {
                                k - 1
                            };
                            assert(before[was] == other);
                            assert(before.contains(other));
                            let p = choose|p: int| 0 <= p < prefix.len() && prefix[p] == other;
                            assert(longer[p] == other);
                        }
                    }
                    if longer.contains(other) {
                        let p = choose|p: int| 0 <= p < longer.len() && longer[p] == other;
                        if p == taken {
                            assert(after[at as int] == other);
                        } else {
                            assert(prefix[p] == other);
                            assert(prefix.contains(other));
                            assert(before.contains(other));
                            let k = choose|k: int| 0 <= k < before.len() && before[k] == other;
                            let now = if k < at {
                                k
                            } else {
                                k + 1
                            };
                            assert(after[now] == other);
                        }
                    }
                }
            }
            sorted.insert(at, member);
            total = sum;
            taken = taken + 1;
        }
        proof {
            assert(given.take(taken as int) =~= given);
        }
        Some(Committee { idp, witnesses: sorted, total })
    }

    /// The identity provider's public key.
    pub fn identity_provider(&self) -> (name: PublicKey)
        ensures
            name == self.provider().name,
    {
        self.idp.name
    }

    /// The identity provider's address.
    pub fn identity_provider_address(&self) -> (address: String)
        ensures
            address@ == self.provider().address@,
    {
        self.idp.address.clone()
    }

    /// The number of witnesses.
    pub fn size(&self) -> (count: usize)
        ensures
            count == self.members().len(),
    {
        self.witnesses.len()
    }

    /// The voting power of all witnesses together.
    pub fn total_voting_power(&self) -> (total: VotingPower)
        ensures
            total == total_power(self.members()),
    {
        proof {
            use_type_invariant(self);
        }
        self.total
    }

    /// The voting power of `name`; 0 where it is no witness.
    pub fn voting_power(&self, name: &PublicKey) -> (power: VotingPower)
        ensures
            power == power_of(self.members(), *name),
            power > 0 ==> is_member(self.members(), *name),
    {
        proof {
            lemma_power_of_member(self.witnesses@, *name);
            assert(self.witnesses@.skip(0) =~= self.witnesses@);
        }
        let mut i: usize = 0;
        while i < self.witnesses.len()
            invariant
                0 <= i <= self.witnesses@.len(),
                power_of(self.witnesses@, *name) == power_of(self.witnesses@.skip(i as int), *name),
            decreases self.witnesses@.len() - i,
        {
            proof {
                lemma_public_key_bytes(self.witnesses@[i as int].0, *name);
                assert(self.witnesses@.skip(i as int).drop_first() =~= self.witnesses@.skip(i + 1));
            }
            if self.witnesses[i].0 == *name {
                return self.witnesses[i].1.voting_power;
            }
            i = i + 1;
        }
        0
    }

    /// The least voting power that makes a quorum.
    pub fn quorum_threshold(&self) -> (quorum: VotingPower)
        ensures
            quorum == quorum_of(total_power(self.members())),
    {
        proof {
            use_type_invariant(self);
        }
        let total: u64 = self.total as u64;
        (2 * total / 3 + 1) as u32
    }

    /// The address of the witness `name`, if it is one.
    pub fn witness_address(&self, name: &PublicKey) -> (address: Option<String>)
        ensures
            address is Some <==> is_member(self.members(), *name),
            match address {
                Some(text) => address_of(self.members(), *name) == Some(text@),
                None => address_of(self.members(), *name) is None,
            },
    {
        proof {
            lemma_address_of_member(self.witnesses@, *name);
            assert(self.witnesses@.skip(0) =~= self.witnesses@);
        }
        let mut i: usize = 0;
        while i < self.witnesses.len()
            invariant
                0 <= i <= self.witnesses@.len(),
                address_of(self.witnesses@, *name) == address_of(
                    self.witnesses@.skip(i as int),
                    *name,
                ),
            decreases self.witnesses@.len() - i,
        {
            proof {
                lemma_public_key_bytes(self.witnesses@[i as int].0, *name);
                assert(self.witnesses@.skip(i as int).drop_first() =~= self.witnesses@.skip(i + 1));
            }
            if self.witnesses[i].0 == *name {
                return Some(self.witnesses[i].1.address.clone());
            }
            i = i + 1;
        }
        None
    }

    /// The witnesses' keys and addresses, in the order of the keys.
    pub fn witnesses_addresses(&self) -> (list: Vec<(PublicKey, String)>)
        ensures
            list@.len() == self.members().len(),
            forall|i: int|
                0 <= i < list@.len() ==> (#[trigger] list@[i]).0 == self.members()[i].0
                    && list@[i].1@ == self.members()[i].1.address@,
            forall|i: int, j: int|
                0 <= i < j < list@.len() ==> bytes_before(
                    (#[trigger] list@[i]).0@,
                    (#[trigger] list@[j]).0@,
                ),
    {
        proof {
            use_type_invariant(self);
        }
        let mut list: Vec<(PublicKey, String)> = Vec::new();
        let mut i: usize = 0;
        while i < self.witnesses.len()
            invariant
                0 <= i <= self.witnesses@.len(),
                list@.len() == i,
                forall|j: int|
                    0 <= j < i ==> (#[trigger] list@[j]).0 == self.witnesses@[j].0 && list@[j].1@
                        == self.witnesses@[j].1.address@,
            decreases self.witnesses@.len() - i,
        {
            list.push((self.witnesses[i].0, self.witnesses[i].1.address.clone()));
            i = i + 1;
        }
        list
    }
}

impl Clone for Committee {
    fn clone(&self) -> (copy: Committee)
        ensures
            copy.members() == self.members(),
            copy.provider().name == self.provider().name,
            copy.provider().address@ == self.provider().address@,
    {
        proof {
            use_type_invariant(self);
        }
        let mut witnesses: Vec<Member> = Vec::new();
        let mut i: usize = 0;
        while i < self.witnesses.len()
            invariant
                0 <= i <= self.witnesses@.len(),
                witnesses@ =~= self.witnesses@.take(i as int),
            decreases self.witnesses@.len() - i,
        {
            let witness = Witness {
                voting_power: self.witnesses[i].1.voting_power,
                address: self.witnesses[i].1.address.clone(),
            };
            witnesses.push((self.witnesses[i].0, witness));
            i = i + 1;
        }
        proof {
            assert(self.witnesses@.take(i as int) =~= self.witnesses@);
        }
        Committee {
            idp: Idp { name: self.idp.name, address: self.idp.address.clone() },
            witnesses,
            total: self.total,
        }
    }
}

} // verus!
