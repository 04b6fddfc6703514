//! Who is in the recorded voice channel.
//!
//! The gateway does not reliably say where a user comes from, so the membership
//! observed here supplies the evidence that a user has left.

use std::collections::HashSet;

use vstd::prelude::*;

use crate::text;

verus! {

broadcast use vstd::std_specs::hash::group_hash_axioms;

/// A member of the guild.
#[derive(Debug)]
pub struct Member {
    pub user_id: u64,
    pub bot: bool,
    pub nick: Option<String>,
    pub global_name: Option<String>,
    pub name: String,
}

/// The names under which a user is known.
#[derive(Debug)]
pub struct Identity {
    pub user_id: u64,
    pub nick: Option<String>,
    pub global_name: Option<String>,
    pub name: String,
}

pub struct IdentityView {
    pub user_id: u64,
    pub nick: Option<Seq<char>>,
    pub global_name: Option<Seq<char>>,
    pub name: Seq<char>,
}

impl DeepView for Identity {
    type V = IdentityView;

    open spec fn deep_view(&self) -> IdentityView {
        IdentityView {
            user_id: self.user_id,
            nick: self.nick.deep_view(),
            global_name: self.global_name.deep_view(),
            name: self.name@,
        }
    }
}

/// Where a user is, as the gateway reports it.
#[derive(Debug)]
pub struct VoiceState {
    pub user_id: u64,
    pub guild_id: Option<u64>,
    pub channel_id: Option<u64>,
    pub member: Option<Member>,
}

/// What is to be filed of a report: users who have left, and the names of users
/// who are there.
#[derive(Debug)]
pub struct Evidence {
    pub departed: Vec<u64>,
    pub identities: Vec<Identity>,
}

/// The users observed in the recorded channel.
#[derive(Debug)]
pub struct Roster {
    guild_id: u64,
    channel_id: u64,
    users: HashSet<u64>,
}

pub struct RosterView {
    pub guild_id: u64,
    pub channel_id: u64,
    pub users: Set<u64>,
}

impl View for Roster {
    type V = RosterView;

    closed spec fn view(&self) -> RosterView {
        RosterView {
            guild_id: self.guild_id,
            channel_id: self.channel_id,
            users: self.users@,
        }
    }
}

/// The names that are filed of a member: those of a bot are not.
pub open spec fn identity_of(member: Member) -> Seq<IdentityView> {
    if member.bot {
        Seq::empty()
    } else {
        seq![
            IdentityView {
                user_id: member.user_id,
                nick: member.nick.deep_view(),
                global_name: member.global_name.deep_view(),
                name: member.name@,
            },
        ]
    }
}

/// The names to file of a member.
pub fn observe_member_identity(member: &Member) -> (identity: Option<Identity>)
    ensures
        match identity {
            None => identity_of(*member).len() == 0,
            Some(found) => identity_of(*member) == seq![found.deep_view()],
        },
{
    if member.bot {
        None
    } else {
        let identity = Identity {
            user_id: member.user_id,
            nick: text::copy_optional(&member.nick),
            global_name: text::copy_optional(&member.global_name),
            name: member.name.clone(),
        };
        assert(identity_of(*member) =~= seq![identity.deep_view()]);
        Some(identity)
    }
}

/// Whether an update is of a bot: the member it names, else the one that the
/// state before it named.
pub open spec fn of_a_bot(earlier: Option<VoiceState>, new: VoiceState) -> bool {
    match new.member {
        Some(member) => member.bot,
        None => match earlier {
            Some(before) => match before.member {
                Some(member) => member.bot,
                None => false,
            },
            None => false,
        },
    }
}

impl RosterView {
    /// Whether an update is of a user of the recorded guild.
    pub open spec fn concerns(self, earlier: Option<VoiceState>, new: VoiceState) -> bool {
        !of_a_bot(earlier, new) && (new.guild_id == Some(self.guild_id) || (earlier is Some
            && earlier->0.guild_id == Some(self.guild_id)))
    }

    /// The users in the channel behind an update.
    pub open spec fn updated(self, earlier: Option<VoiceState>, new: VoiceState) -> Set<u64> {
        if !self.concerns(earlier, new) {
            self.users
        } else if new.channel_id != Some(self.channel_id) {
            self.users.remove(new.user_id)
        } else {
            self.users.insert(new.user_id)
        }
    }

    /// The users that an update shows to have left.
    pub open spec fn departures(self, earlier: Option<VoiceState>, new: VoiceState) -> Seq<u64> {
        if self.concerns(earlier, new) && new.channel_id != Some(self.channel_id)
            && self.users.contains(new.user_id) {
            seq![new.user_id]
        } else {
            Seq::empty()
        }
    }

    /// The names that an update brings.
    pub open spec fn named(self, earlier: Option<VoiceState>, new: VoiceState) -> Seq<IdentityView> {
        if self.concerns(earlier, new) && new.channel_id == Some(self.channel_id) && new.member is Some {
            identity_of(new.member->0)
        } else {
            Seq::empty()
        }
    }

    /// Whether a state shows a person in the recorded channel.
    pub open spec fn seats(self, state: VoiceState) -> bool {
        state.channel_id == Some(self.channel_id) && state.member is Some && !state.member->0.bot
    }

    /// The persons in the recorded channel, as a snapshot of a guild lists them.
    pub open spec fn seated(self, states: Seq<VoiceState>) -> Seq<u64>
        decreases states.len(),
    {
        if states.len() == 0 {
            Seq::empty()
        } else if self.seats(states.last()) {
            self.seated(states.drop_last()).push(states.last().user_id)
        } else {
            self.seated(states.drop_last())
        }
    }

    /// The names that a snapshot of a guild brings.
    pub open spec fn introduced(self, states: Seq<VoiceState>) -> Seq<IdentityView>
        decreases states.len(),
    {
        if states.len() == 0 {
            Seq::empty()
        } else if self.seats(states.last()) {
            self.introduced(states.drop_last()) + identity_of(states.last().member->0)
        } else {
            self.introduced(states.drop_last())
        }
    }
}

impl Roster {
    /// Nobody has been observed yet.
    pub fn new(guild_id: u64, channel_id: u64) -> (roster: Roster)
        ensures
            roster@ == (RosterView { guild_id, channel_id, users: Set::empty() }),
    {
        Roster { guild_id, channel_id, users: HashSet::new() }
    }

    /// Take in that the state of a user has changed.
    pub fn voice_state_update(&mut self, earlier: &Option<VoiceState>, new: &VoiceState) -> (evidence:
        Evidence)
        ensures
            final(self)@ == (RosterView { users: old(self)@.updated(*earlier, *new), ..old(self)@ }),
            evidence.departed@ == old(self)@.departures(*earlier, *new),
            evidence.identities.deep_view() == old(self)@.named(*earlier, *new),
    {
        let mut evidence = Evidence { departed: Vec::new(), identities: Vec::new() };
        assert(evidence.identities.deep_view() =~= Seq::empty());
        let bot = match &new.member {
            Some(member) => member.bot,
            None => match earlier {
                Some(before) => match &before.member {
                    Some(member) => member.bot,
                    None => false,
                },
                None => false,
            },
        };
        if bot {
            return evidence;
        }
        let belongs = is_id(&new.guild_id, self.guild_id) || match earlier {
            Some(before) => is_id(&before.guild_id, self.guild_id),
            None => false,
        };
        if !belongs {
            return evidence;
        }
        if !is_id(&new.channel_id, self.channel_id) {
            let was_present = self.users.remove(&new.user_id);
            if was_present {
                evidence.departed.push(new.user_id);
                assert(evidence.departed@ =~= seq![new.user_id]);
            }
            return evidence;
        }
        self.users.insert(new.user_id);
        if let Some(member) = &new.member {
            if let Some(identity) = observe_member_identity(member) {
                evidence.identities.push(identity);
                assert(evidence.identities.deep_view() =~= seq![identity.deep_view()]);
            }
        }
        evidence
    }

    /// Take in a snapshot of a guild: the state of each of its users in voice.
    /// Those who were observed before and are not there any more have left; in
    /// which order they are listed is left open.
    pub fn guild_create(&mut self, guild_id: u64, states: &Vec<VoiceState>) -> (evidence: Evidence)
        ensures
            guild_id != old(self)@.guild_id ==> final(self)@ == old(self)@ && evidence.departed@
                == Seq::<u64>::empty() && evidence.identities.deep_view() == Seq::<
                IdentityView,
            >::empty(),
            guild_id == old(self)@.guild_id ==> {
                &&& final(self)@ == (RosterView {
                    users: old(self)@.seated(states@).to_set(),
                    ..old(self)@
                })
                &&& evidence.departed@.no_duplicates()
                &&& evidence.departed@.to_set() == old(self)@.users.difference(
                    old(self)@.seated(states@).to_set(),
                )
                &&& evidence.identities.deep_view() == old(self)@.introduced(states@)
            },
    {
        let mut evidence = Evidence { departed: Vec::new(), identities: Vec::new() };
        assert(evidence.identities.deep_view() =~= Seq::empty());
        if guild_id != self.guild_id {
            return evidence;
        }
        let mut current: HashSet<u64> = HashSet::new();
        let mut index: usize = 0;
        let ghost roster = self@;
        assert(states@.take(0) =~= Seq::<VoiceState>::empty());
        assert(Seq::<u64>::empty().to_set() =~= Set::empty());
        while index < states.len()
            invariant
                index <= states.len(),
                roster == self@,
                evidence.departed@ == Seq::<u64>::empty(),
                current@ == roster.seated(states@.take(index as int)).to_set(),
                evidence.identities.deep_view() == roster.introduced(states@.take(index as int)),
            decreases states.len() - index,
        {
            let state = &states[index];
            let ghost before = states@.take(index as int);
            proof {
                let longer = states@.take(index + 1);
                assert(longer.drop_last() =~= before);
                assert(longer.last() == *state);
                lemma_set_grows(roster.seated(before), state.user_id);
            }
            if is_id(&state.channel_id, self.channel_id) {
                if let Some(member) = &state.member {
                    if !member.bot {
                        current.insert(state.user_id);
                        if let Some(identity) = observe_member_identity(member) {
                            let ghost named = evidence.identities.deep_view();
                            evidence.identities.push(identity);
                            assert(evidence.identities.deep_view() =~= named.push(
                                identity.deep_view(),
                            ));
                            assert(named.push(identity.deep_view()) =~= named + seq![
                                identity.deep_view(),
                            ]);
                        }
                    }
                }
            }
            index = index + 1;
        }
        assert(states@.take(states@.len() as int) =~= states@);
        evidence.departed = members_outside(&self.users, &current);
        self.users = current;
        evidence
    }
}

fn is_id(id: &Option<u64>, wanted: u64) -> (same: bool)
    ensures
        same == (*id == Some(wanted)),
{
    match id {
        Some(found) => *found == wanted,
        None => false,
    }
}

proof fn lemma_set_grows(numbers: Seq<u64>, number: u64)
    ensures
        numbers.push(number).to_set() == numbers.to_set().insert(number),
{
    let longer = numbers.push(number);
    lemma_contains_pushed(numbers, number);
    assert forall|n: u64|
        longer.to_set().contains(n) == numbers.to_set().insert(number).contains(n) by {
        assert(longer.to_set().contains(n) == longer.contains(n));
    }
    assert(longer.to_set() =~= numbers.to_set().insert(number));
}

proof fn lemma_contains_pushed(numbers: Seq<u64>, number: u64)
    ensures
        forall|n: u64| #[trigger]
            numbers.push(number).contains(n) <==> numbers.contains(n) || n == number,
{
    let longer = numbers.push(number);
    assert forall|n: u64| #[trigger] longer.contains(n) <==> numbers.contains(n) || n == number by {
        if numbers.contains(n) {
            let i = choose|i: int| 0 <= i < numbers.len() && numbers[i] == n;
            assert(longer[i] == n);
        }
        if n == number {
            assert(longer[numbers.len() as int] == n);
        }
    }
}

proof fn lemma_next_member(order: Seq<&u64>, index: int)
    requires
        order.no_duplicates(),
        0 <= index < order.len(),
    ensures
        !order.unref().take(index).contains(*order[index]),
        forall|n: u64| #[trigger]
            order.unref().take(index + 1).contains(n) <==> order.unref().take(index).contains(n)
                || n == *order[index],
{
    let before = order.unref().take(index);
    let after = order.unref().take(index + 1);
    assert(after =~= before.push(*order[index]));
    assert forall|n: u64| #[trigger] after.contains(n) <==> before.contains(n) || n
        == *order[index] by {
        if before.contains(n) {
            let i = choose|i: int| 0 <= i < before.len() && before[i] == n;
            assert(after[i] == n);
        }
        if n == *order[index] {
            assert(after[index] == n);
        }
    }
    if before.contains(*order[index]) {
        let i = choose|i: int| 0 <= i < before.len() && before[i] == *order[index];
        assert(order[i] == order[index]);
    }
}

/// The members of a set that are not in another.
fn members_outside(members: &HashSet<u64>, others: &HashSet<u64>) -> (outside: Vec<u64>)
    ensures
        outside@.no_duplicates(),
        outside@.to_set() == members@.difference(others@),
{
    let mut outside: Vec<u64> = Vec::new();
    let ghost order = vstd::std_specs::iter::IteratorSpec::remaining(
        &vstd::std_specs::hash::spec_hash_keys_iter(members),
    );
    for member in it: members.iter()
        invariant
            it.seq() == order,
            order.no_duplicates(),
            outside@.no_duplicates(),
            forall|n: u64|
                outside@.contains(n) <==> order.unref().take(it.index()).contains(n)
                    && !others@.contains(n),
    {
        let ghost kept = outside@;
        proof {
            lemma_next_member(order, it.index());
        }
        if !others.contains(member) {
            outside.push(*member);
            proof {
                lemma_contains_pushed(kept, *member);
            }
        }
        assert(*member == *order[it.index()]);
    }
    proof {
        assert(order.unref().take(order.len() as int) =~= order.unref());
        assert forall|n: u64|
            outside@.to_set().contains(n) == members@.difference(others@).contains(n) by {
            assert(outside@.contains(n) == outside@.to_set().contains(n));
            assert(order.unref().contains(n) == order.unref().to_set().contains(n));
        }
        assert(outside@.to_set() =~= members@.difference(others@));
    }
    outside
}

/// A departure is filed exactly when an update takes a user out of the channel
/// who was observed there.
pub proof fn departures_are_observed(roster: RosterView, earlier: Option<VoiceState>, new: VoiceState)
    ensures
        roster.departures(earlier, new).contains(new.user_id) <==> roster.users.contains(new.user_id)
            && !roster.updated(earlier, new).contains(new.user_id),
        forall|user: u64|
            user != new.user_id ==> (#[trigger] roster.updated(earlier, new).contains(user)
                == roster.users.contains(user)) && !roster.departures(earlier, new).contains(user),
{
    if roster.departures(earlier, new).len() > 0 {
        assert(roster.departures(earlier, new)[0] == new.user_id);
    }
}

/// Bots are neither observed nor named.
pub proof fn bots_leave_no_trace(roster: RosterView, earlier: Option<VoiceState>, new: VoiceState)
    requires
        of_a_bot(earlier, new),
    ensures
        roster.updated(earlier, new) == roster.users,
        roster.departures(earlier, new).len() == 0,
        roster.named(earlier, new).len() == 0,
{
}

} // verus!
