//! `/social_credit`: who may give how much social credit to whom, what the
//! bot answers, and the leaderboard.

use crate::config::Config;
use crate::entity::social_credit_user::Model;
use crate::discord::{mention_text, user_mention};
use crate::text::{
    decimal, join_lines, joined, plus_signed_decimal, push_i64, push_i64_signed, push_str,
    push_u64, signed_decimal, string_of, texts,
};
use vstd::prelude::*;
use vstd::seq_lib::*;

verus! {

// ----------------------------------------------------------------------------
// Role based limits
// ----------------------------------------------------------------------------

/// Every entry's limit is at least that of every later entry.
pub open spec fn sorted_by_limit_desc(table: Seq<(u64, u64)>) -> bool {
    forall|i: int, j: int| 0 <= i < j < table.len() ==> table[i].1 >= table[j].1
}

/// The limit, in thousands, of the first entry of `table` whose role is among
/// `roles`; 10 when the member holds none of them.
pub open spec fn held_limit(roles: Seq<u64>, table: Seq<(u64, u64)>) -> nat
    decreases table.len(),
{
    if table.len() == 0 {
        10
    } else if roles.contains(table[0].0) {
        table[0].1 as nat
    } else {
        held_limit(roles, table.drop_first())
    }
}

/// Whether `value` occurs in `values`.
pub fn contains_id(values: &Vec<u64>, value: u64) -> (found: bool)
    ensures
        found == values@.contains(value),
{
    let mut i: usize = 0;
    while i < values.len()
        invariant
            0 <= i <= values.len(),
            forall|k: int| 0 <= k < i ==> values@[k] != value,
        decreases values.len() - i,
    {
        if values[i] == value {
            assert(values@[i as int] == value);
            return true;
        }
        i = i + 1;
    }
    false
}

/// The entries of `pairs` ordered by limit, highest first.
fn sort_by_limit_desc(pairs: &Vec<(u64, u64)>) -> (sorted: Vec<(u64, u64)>)
    ensures
        sorted_by_limit_desc(sorted@),
        sorted@.to_multiset() == pairs@.to_multiset(),
{
    broadcast use group_to_multiset_ensures;

    let mut sorted: Vec<(u64, u64)> = Vec::new();
    let mut k: usize = 0;
    while k < pairs.len()
        invariant
            0 <= k <= pairs.len(),
            sorted_by_limit_desc(sorted@),
            sorted@.to_multiset() == pairs@.take(k as int).to_multiset(),
        decreases pairs.len() - k,
    {
        let x = pairs[k];
        let mut j: usize = 0;
        while j < sorted.len() && sorted[j].1 > x.1
            invariant
                0 <= j <= sorted.len(),
                forall|i: int| 0 <= i < j ==> sorted@[i].1 > x.1,
            decreases sorted.len() - j,
        {
            j = j + 1;
        }
        let ghost before = sorted@;
        sorted.insert(j, x);
        assert(sorted@ == before.insert(j as int, x));
        assert forall|a: int, b: int| 0 <= a < b < sorted@.len() implies sorted@[a].1
            >= sorted@[b].1 by {
            if b < j {
            } else if b == j {
            } else if a < j {
                assert(sorted@[b] == before[b - 1]);
                assert(before[j as int].1 <= x.1);
                assert(before[j as int].1 >= before[b - 1].1 || j == b - 1);
            } else if a == j {
                assert(before[j as int].1 <= x.1);
                assert(before[j as int].1 >= before[b - 1].1 || j == b - 1);
            } else {
                assert(sorted@[a] == before[a - 1]);
                assert(sorted@[b] == before[b - 1]);
            }
        }
        proof {
            to_multiset_insert(before, j as int, x);
            assert(pairs@.take(k + 1) == pairs@.take(k as int).push(x));
            to_multiset_build(pairs@.take(k as int), x);
        }
        k = k + 1;
    }
    assert(pairs@.take(pairs.len() as int) == pairs@);
    sorted
}

/// Two tables with the same entries, ordered by limit highest first, are the
/// same when the limits of the second are all different.
proof fn lemma_sorted_tables_equal(x: Seq<(u64, u64)>, y: Seq<(u64, u64)>)
    requires
        sorted_by_limit_desc(x),
        forall|i: int, j: int| 0 <= i < j < y.len() ==> y[i].1 > y[j].1,
        x.to_multiset() == y.to_multiset(),
    ensures
        x == y,
    decreases x.len(),
{
    broadcast use group_to_multiset_ensures;

    assert(x.len() == x.to_multiset().len());
    assert(y.len() == y.to_multiset().len());
    if x.len() > 0 {
        assert(y.to_multiset().count(y[0]) > 0);
        assert(x.contains(y[0]));
        let k: int = choose|k: int| 0 <= k < x.len() && x[k] == y[0];
        assert(x[0].1 >= x[k].1);
        assert(y.to_multiset().count(x[0]) > 0);
        assert(y.contains(x[0]));
        let m: int = choose|m: int| 0 <= m < y.len() && y[m] == x[0];
        if m > 0 {
            assert(y[0].1 > y[m].1);
        }
        assert(x[0] == y[0]);
        to_multiset_remove(x, 0);
        to_multiset_remove(y, 0);
        assert(x.remove(0) == x.drop_first());
        assert(y.remove(0) == y.drop_first());
        assert(forall|i: int, j: int|
            0 <= i < j < y.drop_first().len() ==> y.drop_first()[i].1 > y.drop_first()[j].1) by {
            assert forall|i: int, j: int| 0 <= i < j < y.drop_first().len() implies y.drop_first()[i].1
                > y.drop_first()[j].1 by {
                assert(y.drop_first()[i] == y[i + 1]);
                assert(y.drop_first()[j] == y[j + 1]);
            }
        }
        lemma_sorted_tables_equal(x.drop_first(), y.drop_first());
        assert(x == seq![x[0]] + x.drop_first());
        assert(y == seq![y[0]] + y.drop_first());
    }
}

/// The role limits of the configuration (in thousands), highest first: the five
/// patron tiers (10000, 1500, 500, 200 and 100) and the friend role (20).
pub fn role_limits(config: &Config) -> (table: Vec<(u64, u64)>)
    ensures
        table@ == seq![
            (config.patron_tier_5_role, 10000u64),
            (config.patron_tier_4_role, 1500u64),
            (config.patron_tier_3_role, 500u64),
            (config.patron_tier_2_role, 200u64),
            (config.patron_tier_1_role, 100u64),
            (config.friend_role, 20u64),
        ],
        sorted_by_limit_desc(table@),
{
    broadcast use group_to_multiset_ensures;

    let limits = vec![
        (config.patron_tier_5_role, 10000u64),
        (config.patron_tier_4_role, 1500u64),
        (config.patron_tier_3_role, 500u64),
        (config.patron_tier_2_role, 200u64),
        (config.patron_tier_1_role, 100u64),
        (config.friend_role, 20u64),
    ];
    let table = sort_by_limit_desc(&limits);
    assert(limits@ == seq![
        (config.patron_tier_5_role, 10000u64),
        (config.patron_tier_4_role, 1500u64),
        (config.patron_tier_3_role, 500u64),
        (config.patron_tier_2_role, 200u64),
        (config.patron_tier_1_role, 100u64),
        (config.friend_role, 20u64),
    ]);
    proof {
        lemma_sorted_tables_equal(table@, limits@);
    }
    table
}

/// The most social credit a member with `roles` may give or take at once: the
/// limit of the first entry of `table` whose role they hold (10 when none), in
/// thousands.
pub fn get_limit(roles: &Vec<u64>, table: &Vec<(u64, u64)>) -> (limit: u64)
    requires
        forall|i: int| 0 <= i < table.len() ==> table@[i].1 <= u64::MAX / 1000,
    ensures
        limit == 1000 * held_limit(roles@, table@),
{
    let mut i: usize = 0;
    let mut found: u64 = 10;
    assert(table@.skip(0) == table@);
    while i < table.len()
        invariant
            0 <= i <= table.len(),
            found == 10,
            forall|k: int| 0 <= k < table.len() ==> table@[k].1 <= u64::MAX / 1000,
            held_limit(roles@, table@) == held_limit(roles@, table@.skip(i as int)),
        decreases table.len() - i,
    {
        assert(table@.skip(i as int).drop_first() == table@.skip(i + 1));
        assert(table@.skip(i as int)[0] == table@[i as int]);
        let (role, role_limit) = table[i];
        if contains_id(roles, role) {
            found = role_limit;
            return found * 1000;
        }
        i = i + 1;
    }
    assert(table@.skip(i as int).len() == 0);
    found * 1000
}

/// With a table ordered highest limit first, a member gets the highest limit
/// among the roles they hold, and 10 when they hold none of them.
pub proof fn lemma_highest_limit_wins(roles: Seq<u64>, table: Seq<(u64, u64)>)
    requires
        sorted_by_limit_desc(table),
    ensures
        forall|i: int|
            0 <= i < table.len() && roles.contains(#[trigger] table[i].0) ==> table[i].1
                <= held_limit(roles, table),
        (exists|i: int|
            0 <= i < table.len() && roles.contains(#[trigger] table[i].0) && held_limit(
                roles,
                table,
            ) == table[i].1) || (held_limit(roles, table) == 10 && forall|i: int|
            0 <= i < table.len() ==> !roles.contains(#[trigger] table[i].0)),
    decreases table.len(),
{
    if table.len() > 0 {
        let rest = table.drop_first();
        assert(sorted_by_limit_desc(rest));
        lemma_highest_limit_wins(roles, rest);
        if roles.contains(table[0].0) {
            assert(forall|i: int| 0 <= i < table.len() ==> table[0].1 >= #[trigger] table[i].1);
        } else {
            assert forall|i: int|
                0 <= i < table.len() && roles.contains(#[trigger] table[i].0) implies table[i].1
                <= held_limit(roles, table) by {
                assert(table[i] == rest[i - 1]);
            }
            if exists|i: int|
                0 <= i < rest.len() && roles.contains(#[trigger] rest[i].0) && held_limit(
                    roles,
                    rest,
                ) == rest[i].1 {
                let i: int = choose|i: int|
                    0 <= i < rest.len() && roles.contains(#[trigger] rest[i].0) && held_limit(
                        roles,
                        rest,
                    ) == rest[i].1;
                assert(table[i + 1] == rest[i]);
            } else {
                assert forall|i: int| 0 <= i < table.len() implies !roles.contains(
                    #[trigger] table[i].0,
                ) by {
                    if i > 0 {
                        assert(table[i] == rest[i - 1]);
                    }
                }
            }
        }
    }
}

/// Whether `roles` holds the member or the provisional role of `config`.
pub fn has_member_or_provisional(config: &Config, roles: &Vec<u64>) -> (holds: bool)
    ensures
        holds == (roles@.contains(config.member_role) || roles@.contains(
            config.provisional_role,
        )),
{
    holds_either(roles, config.member_role, config.provisional_role)
}

fn holds_either(roles: &Vec<u64>, first: u64, second: u64) -> (holds: bool)
    ensures
        holds == (roles@.contains(first) || roles@.contains(second)),
{
    contains_id(roles, first) || contains_id(roles, second)
}

// ----------------------------------------------------------------------------
// Amounts
// ----------------------------------------------------------------------------

/// `|n|`.
pub open spec fn abs(n: int) -> int {
    if n < 0 {
        -n
    } else {
        n
    }
}

/// Whether `amount` may be given by a member whose limit is `limit`: it is not
/// zero and its magnitude is at most the limit.
pub open spec fn amount_allowed(amount: int, limit: int) -> bool {
    amount != 0 && abs(amount) <= limit
}

/// The answer to an amount that is not allowed.
pub open spec fn invalid_amount_message(amount: int, limit: nat) -> Seq<char> {
    "Invalid amount! Pick an amount between -"@ + decimal(limit) + " and "@ + decimal(limit) + if amount
        == 0 {
        " (excluding 0)"@
    } else {
        Seq::<char>::empty()
    }
}

/// Accepts `amount` when it is allowed under `limit`, else gives the message
/// that says which amounts are.
pub fn check_amount(amount: i64, limit: u64) -> (res: Result<(), String>)
    ensures
        res is Ok <==> amount_allowed(amount as int, limit as int),
        res matches Err(message) ==> message@ == invalid_amount_message(
            amount as int,
            limit as nat,
        ),
{
    let magnitude: u64 = crate::text::magnitude(amount);
    if amount == 0 || magnitude > limit {
        let mut message = String::new();
        push_str(&mut message, "Invalid amount! Pick an amount between -");
        push_u64(&mut message, limit);
        push_str(&mut message, " and ");
        push_u64(&mut message, limit);
        if amount == 0 {
            push_str(&mut message, " (excluding 0)");
        }
        Err(message)
    } else {
        Ok(())
    }
}

// ----------------------------------------------------------------------------
// The answer to a change of social credit
// ----------------------------------------------------------------------------

/// The embed that announces a change of social credit.
#[derive(Debug)]
pub struct CreditEmbed {
    pub description: String,
    pub image: String,
    pub footer: String,
    pub color: u32,
    pub attachment_name: String,
}

/// The embed announces `amount` given to `target_id` by `author_id`, shows the
/// attached image, and the new social credit `credit` in its footer; it is red
/// for a loss and green for a gain.
pub open spec fn embed_says(
    embed: CreditEmbed,
    amount: int,
    target_id: u64,
    author_id: u64,
    credit: int,
) -> bool {
    &&& embed.description@ == "### "@ + plus_signed_decimal(amount) + " Social Credit to "@
        + mention_text(target_id) + " from "@ + mention_text(author_id)
    &&& embed.image@ == "attachment://social_credit_image.png"@
    &&& embed.footer@ == "current social credit: "@ + signed_decimal(credit)
    &&& embed.color == if amount < 0 {
        0xC24A3Fu32
    } else {
        0x2EB33Eu32
    }
    &&& embed.attachment_name@ == "social_credit_image.png"@
}

/// The embed for `amount` given to `target_id` by `author_id`, after which the
/// target has `credit`.
pub fn credit_embed(amount: i64, target_id: u64, author_id: u64, credit: i64) -> (embed:
    CreditEmbed)
    requires
        target_id != 0,
        author_id != 0,
    ensures
        embed_says(embed, amount as int, target_id, author_id, credit as int),
{
    let mut description = String::new();
    push_str(&mut description, "### ");
    push_i64_signed(&mut description, amount);
    push_str(&mut description, " Social Credit to ");
    let target = user_mention(target_id);
    push_str(&mut description, target.as_str());
    push_str(&mut description, " from ");
    let author = user_mention(author_id);
    push_str(&mut description, author.as_str());

    let mut image = String::new();
    push_str(&mut image, "attachment://social_credit_image.png");
    let mut footer = String::new();
    push_str(&mut footer, "current social credit: ");
    push_i64(&mut footer, credit);
    let mut attachment_name = String::new();
    push_str(&mut attachment_name, "social_credit_image.png");
    let color: u32 = if amount < 0 {
        0xC24A3F
    } else {
        0x2EB33E
    };
    CreditEmbed { description, image, footer, color, attachment_name }
}

/// The two pictures behind the number on the credit image.
#[derive(Clone, Copy, Debug, PartialEq, Eq)]
pub enum CreditTemplate {
    Minus,
    Plus,
}

/// What the credit image shows: a picture and the number written on it.
#[derive(Debug)]
pub struct ImagePlan {
    pub template: CreditTemplate,
    pub text: String,
}

/// The image shows the minus picture exactly for a loss, and the magnitude of
/// `amount` in decimal.
pub open spec fn image_shows(plan: ImagePlan, amount: int) -> bool {
    &&& (plan.template is Minus <==> amount < 0)
    &&& plan.text@ == decimal(abs(amount) as nat)
}

/// The image for `amount`: the minus picture for a loss and the plus picture
/// otherwise, with the magnitude of the amount written on it.
pub fn image_plan(amount: i64) -> (plan: ImagePlan)
    ensures
        image_shows(plan, amount as int),
{
    let mut text = String::new();
    push_u64(&mut text, crate::text::magnitude(amount));
    if amount < 0 {
        ImagePlan { template: CreditTemplate::Minus, text }
    } else {
        ImagePlan { template: CreditTemplate::Plus, text }
    }
}

// ----------------------------------------------------------------------------
// `/social_credit target`, step by step
// ----------------------------------------------------------------------------

/// Where a `/social_credit target` command stands.
#[derive(Debug)]
pub enum TargetStage {
    /// Nothing decided yet.
    Start,
    /// The target may receive social credit; the author's member record is needed.
    AwaitingAuthor,
    /// The amount is accepted; the target's stored record is needed.
    AwaitingStored { author_id: u64 },
    /// The target's new record was handed out to be stored.
    AwaitingSaved { author_id: u64 },
    /// The announcement was handed out to be sent.
    AwaitingReply { user: Model },
    /// The command is over.
    Done,
}

/// What happened outside since the last step.
#[derive(Debug)]
pub enum TargetEvent {
    /// The command was invoked on a target with these roles.
    Begin { target_roles: Vec<u64> },
    /// The author's member record, with the author's id and roles.
    AuthorFound { author_id: u64, author_roles: Vec<u64> },
    /// The author's member record could not be had.
    AuthorMissing,
    /// The target's stored record, if there is one.
    Loaded { stored: Option<Model> },
    /// The record as stored after the insert or update.
    Saved { user: Model },
    /// The announcement was sent.
    Replied,
}

/// What to do next.
#[derive(Debug)]
pub enum TargetAction {
    /// Answer privately with `message`; the command is over.
    Reply { message: String },
    /// Fetch the author's member record.
    FetchAuthor,
    /// End the command with the error `message`.
    Fail { message: String },
    /// Acknowledge the command publicly and load the stored record with id `id`.
    DeferAndLoad { id: i64 },
    /// Store `user` as a new record.
    Insert { user: Model },
    /// Store `user` over the existing record.
    Update { user: Model },
    /// Send the announcement with the image attached.
    Send { embed: CreditEmbed, image: ImagePlan },
    /// Copy `user`'s social credit to the game server; the command is over.
    Sync { user: Model },
}

/// One `/social_credit target` command: its settings and where it stands.
pub struct TargetFlow {
    member_role: u64,
    provisional_role: u64,
    can_members_change: bool,
    limits: Vec<(u64, u64)>,
    target_id: u64,
    amount: i64,
    stage: TargetStage,
}

impl TargetFlow {
    pub closed spec fn stage(self) -> TargetStage {
        self.stage
    }

    pub closed spec fn member_role(self) -> u64 {
        self.member_role
    }

    pub closed spec fn provisional_role(self) -> u64 {
        self.provisional_role
    }

    pub closed spec fn can_members_change(self) -> bool {
        self.can_members_change
    }

    pub closed spec fn limits(self) -> Seq<(u64, u64)> {
        self.limits@
    }

    pub closed spec fn target_id(self) -> u64 {
        self.target_id
    }

    pub closed spec fn amount(self) -> i64 {
        self.amount
    }

    /// The target and every author seen are real users, and the limits can be
    /// counted in units without overflow.
    pub closed spec fn wf(self) -> bool {
        &&& self.target_id != 0
        &&& forall|i: int| 0 <= i < self.limits@.len() ==> self.limits@[i].1 <= u64::MAX / 1000
        &&& match self.stage {
            TargetStage::AwaitingStored { author_id } => author_id != 0,
            TargetStage::AwaitingSaved { author_id } => author_id != 0,
            _ => true,
        }
    }

    /// The settings of `self` and `other` are the same.
    pub open spec fn same_settings(self, other: TargetFlow) -> bool {
        &&& self.member_role() == other.member_role()
        &&& self.provisional_role() == other.provisional_role()
        &&& self.can_members_change() == other.can_members_change()
        &&& self.limits() == other.limits()
        &&& self.target_id() == other.target_id()
        &&& self.amount() == other.amount()
    }

    /// Whether `event` is one the command waits for, and can take without
    /// overflowing the target's social credit.
    pub open spec fn accepts(self, event: TargetEvent) -> bool {
        match self.stage() {
            TargetStage::Start => event is Begin,
            TargetStage::AwaitingAuthor => {
                ||| event is AuthorMissing
                ||| (event matches TargetEvent::AuthorFound { author_id, .. } && author_id != 0)
            },
            TargetStage::AwaitingStored { .. } => event matches TargetEvent::Loaded { stored } && (
            stored matches Some(record) ==> i64::MIN <= record.social_credit + self.amount()
                <= i64::MAX),
            TargetStage::AwaitingSaved { .. } => event is Saved,
            TargetStage::AwaitingReply { .. } => event is Replied,
            TargetStage::Done => false,
        }
    }

    /// A command on `target_id` for `amount`, under the member rules of
    /// `config` and the role limits `limits`.
    pub fn new(config: &Config, limits: Vec<(u64, u64)>, target_id: u64, amount: i64) -> (flow:
        TargetFlow)
        requires
            target_id != 0,
            forall|i: int| 0 <= i < limits.len() ==> limits@[i].1 <= u64::MAX / 1000,
        ensures
            flow.wf(),
            flow.stage() is Start,
            flow.member_role() == config.member_role,
            flow.provisional_role() == config.provisional_role,
            flow.can_members_change() == config.can_members_change_social_credit,
            flow.limits() == limits@,
            flow.target_id() == target_id,
            flow.amount() == amount,
    {
        TargetFlow {
            member_role: config.member_role,
            provisional_role: config.provisional_role,
            can_members_change: config.can_members_change_social_credit,
            limits,
            target_id,
            amount,
            stage: TargetStage::Start,
        }
    }

    /// Whether the command is over.
    pub fn is_done(&self) -> (done: bool)
        ensures
            done == self.stage() is Done,
    {
        match self.stage {
            TargetStage::Done => true,
            _ => false,
        }
    }

    /// Whether `step` can take `event` now.
    pub fn can_take(&self, event: &TargetEvent) -> (ok: bool)
        ensures
            ok == self.accepts(*event),
    {
        match &self.stage {
            TargetStage::Start => match event {
                TargetEvent::Begin { .. } => true,
                _ => false,
            },
            TargetStage::AwaitingAuthor => match event {
                TargetEvent::AuthorMissing => true,
                TargetEvent::AuthorFound { author_id, .. } => *author_id != 0,
                _ => false,
            },
            TargetStage::AwaitingStored { .. } => match event {
                TargetEvent::Loaded { stored } => match stored {
                    None => true,
                    Some(record) => record.social_credit.checked_add(self.amount).is_some(),
                },
                _ => false,
            },
            TargetStage::AwaitingSaved { .. } => match event {
                TargetEvent::Saved { .. } => true,
                _ => false,
            },
            TargetStage::AwaitingReply { .. } => match event {
                TargetEvent::Replied => true,
                _ => false,
            },
            TargetStage::Done => false,
        }
    }

    /// Takes `event` and says what to do next.
    pub fn step(&mut self, event: TargetEvent) -> (action: TargetAction)
        requires
            old(self).wf(),
            old(self).accepts(event),
        ensures
            final(self).wf(),
            final(self).same_settings(*old(self)),
            step_outcome(*old(self), event, *final(self), action),
    {
        let mut stage = TargetStage::Done;
        std::mem::swap(&mut stage, &mut self.stage);
        match stage {
            TargetStage::Start => match event {
                TargetEvent::Begin { target_roles } => {
                    if holds_either(&target_roles, self.member_role, self.provisional_role) {
                        self.stage = TargetStage::AwaitingAuthor;
                        TargetAction::FetchAuthor
                    } else {
                        TargetAction::Reply {
                            message: string_of("Target must be a Member or a Provisional!"),
                        }
                    }
                },
                _ => {
                    assert(false);
                    TargetAction::FetchAuthor
                },
            },
            TargetStage::AwaitingAuthor => match event {
                TargetEvent::AuthorMissing => TargetAction::Fail {
                    message: string_of("Could not get author member"),
                },
                TargetEvent::AuthorFound { author_id, author_roles } => {
                    if !self.can_members_change && holds_either(
                        &author_roles,
                        self.member_role,
                        self.provisional_role,
                    ) {
                        return TargetAction::Reply { message: string_of("Nuh-uh") };
                    }
                    let limit: u64 = get_limit(&author_roles, &self.limits);
                    match check_amount(self.amount, limit) {
                        Err(message) => TargetAction::Reply { message },
                        Ok(()) => {
                            self.stage = TargetStage::AwaitingStored { author_id };
                            let id: i64 = #[verifier::truncate] (self.target_id as i64);
                            TargetAction::DeferAndLoad { id }
                        },
                    }
                },
                _ => {
                    assert(false);
                    TargetAction::FetchAuthor
                },
            },
            TargetStage::AwaitingStored { author_id } => match event {
                TargetEvent::Loaded { stored } => {
                    self.stage = TargetStage::AwaitingSaved { author_id };
                    match stored {
                        None => {
                            let id: i64 = #[verifier::truncate] (self.target_id as i64);
                            TargetAction::Insert {
                                user: Model { id, social_credit: self.amount, ign: None },
                            }
                        },
                        Some(record) => TargetAction::Update {
                            user: Model {
                                id: record.id,
                                social_credit: record.social_credit + self.amount,
                                ign: record.ign,
                            },
                        },
                    }
                },
                _ => {
                    assert(false);
                    TargetAction::FetchAuthor
                },
            },
            TargetStage::AwaitingSaved { author_id } => match event {
                TargetEvent::Saved { user } => {
                    let embed = credit_embed(
                        self.amount,
                        self.target_id,
                        author_id,
                        user.social_credit,
                    );
                    let image = image_plan(self.amount);
                    self.stage = TargetStage::AwaitingReply { user };
                    TargetAction::Send { embed, image }
                },
                _ => {
                    assert(false);
                    TargetAction::FetchAuthor
                },
            },
            TargetStage::AwaitingReply { user } => match event {
                TargetEvent::Replied => TargetAction::Sync { user },
                _ => {
                    assert(false);
                    TargetAction::FetchAuthor
                },
            },
            TargetStage::Done => {
                assert(false);
                TargetAction::FetchAuthor
            },
        }
    }
}

/// The step from `before` to `after` on `event`, with `action` as its result.
pub open spec fn step_outcome(
    before: TargetFlow,
    event: TargetEvent,
    after: TargetFlow,
    action: TargetAction,
) -> bool {
    let amount: int = before.amount() as int;
    match before.stage() {
        TargetStage::Start => match event {
            TargetEvent::Begin { target_roles } => if target_roles@.contains(before.member_role())
                || target_roles@.contains(before.provisional_role()) {
                &&& action is FetchAuthor
                &&& after.stage() is AwaitingAuthor
            } else {
                &&& action matches TargetAction::Reply { message } && message@
                    == "Target must be a Member or a Provisional!"@
                &&& after.stage() is Done
            },
            _ => false,
        },
        TargetStage::AwaitingAuthor => match event {
            TargetEvent::AuthorMissing => {
                &&& action matches TargetAction::Fail { message } && message@
                    == "Could not get author member"@
                &&& after.stage() is Done
            },
            TargetEvent::AuthorFound { author_id, author_roles } => {
                let limit: nat = 1000 * held_limit(author_roles@, before.limits());
                if !before.can_members_change() && (author_roles@.contains(before.member_role())
                    || author_roles@.contains(before.provisional_role())) {
                    &&& action matches TargetAction::Reply { message } && message@ == "Nuh-uh"@
                    &&& after.stage() is Done
                } else if !amount_allowed(amount, limit as int) {
                    &&& action matches TargetAction::Reply { message } && message@
                        == invalid_amount_message(amount, limit)
                    &&& after.stage() is Done
                } else {
                    &&& action == TargetAction::DeferAndLoad { id: before.target_id() as i64 }
                    &&& after.stage() == TargetStage::AwaitingStored { author_id }
                }
            },
            _ => false,
        },
        TargetStage::AwaitingStored { author_id } => match event {
            TargetEvent::Loaded { stored } => {
                &&& after.stage() == TargetStage::AwaitingSaved { author_id }
                &&& match stored {
                    None => action == TargetAction::Insert {
                        user: Model {
                            id: before.target_id() as i64,
                            social_credit: before.amount(),
                            ign: None,
                        },
                    },
                    Some(record) => action matches TargetAction::Update { user } && user.id
                        == record.id && user.ign == record.ign && user.social_credit
                        == record.social_credit + amount,
                }
            },
            _ => false,
        },
        TargetStage::AwaitingSaved { author_id } => match event {
            TargetEvent::Saved { user } => {
                &&& action matches TargetAction::Send { embed, image } && embed_says(
                    embed,
                    amount,
                    before.target_id(),
                    author_id,
                    user.social_credit as int,
                ) && image_shows(image, amount)
                &&& after.stage() == TargetStage::AwaitingReply { user }
            },
            _ => false,
        },
        TargetStage::AwaitingReply { user } => match event {
            TargetEvent::Replied => {
                &&& action == TargetAction::Sync { user }
                &&& after.stage() is Done
            },
            _ => false,
        },
        TargetStage::Done => false,
    }
}

// ----------------------------------------------------------------------------
// What a step of `/social_credit target` guarantees
// ----------------------------------------------------------------------------

/// A target that holds neither the member nor the provisional role is turned
/// away with "Target must be a Member or a Provisional!", and the command ends;
/// a target holding either goes on to the author check.
pub proof fn lemma_target_must_be_member(
    before: TargetFlow,
    target_roles: Vec<u64>,
    after: TargetFlow,
    action: TargetAction,
)
    requires
        before.stage() is Start,
        step_outcome(before, TargetEvent::Begin { target_roles }, after, action),
    ensures
        !target_roles@.contains(before.member_role()) && !target_roles@.contains(
            before.provisional_role(),
        ) ==> (action matches TargetAction::Reply { message } && message@
            == "Target must be a Member or a Provisional!"@ && after.stage() is Done),
        target_roles@.contains(before.member_role()) || target_roles@.contains(
            before.provisional_role(),
        ) ==> (action is FetchAuthor && !(after.stage() is Done)),
{
}

/// When members may not change social credit, every author holding the member
/// role or the provisional role (or both) is answered "Nuh-uh" and the command
/// ends without touching any record.
pub proof fn lemma_members_refused_when_forbidden(
    before: TargetFlow,
    author_id: u64,
    author_roles: Vec<u64>,
    after: TargetFlow,
    action: TargetAction,
)
    requires
        before.stage() is AwaitingAuthor,
        !before.can_members_change(),
        author_roles@.contains(before.member_role()) || author_roles@.contains(
            before.provisional_role(),
        ),
        step_outcome(before, TargetEvent::AuthorFound { author_id, author_roles }, after, action),
    ensures
        action matches TargetAction::Reply { message } && message@ == "Nuh-uh"@,
        after.stage() is Done,
{
}

/// An author who may act gets the amount checked against their limit: an
/// amount that is zero or larger in magnitude than 1000 times the limit of the
/// first table entry they hold (10 when none) is refused and ends the command;
/// any other amount goes on to load the target's record, with the target's id.
pub proof fn lemma_amount_checked_against_author_limit(
    before: TargetFlow,
    author_id: u64,
    author_roles: Vec<u64>,
    after: TargetFlow,
    action: TargetAction,
)
    requires
        before.stage() is AwaitingAuthor,
        before.can_members_change() || !(author_roles@.contains(before.member_role())
            || author_roles@.contains(before.provisional_role())),
        step_outcome(before, TargetEvent::AuthorFound { author_id, author_roles }, after, action),
    ensures
        ({
            let limit = 1000 * held_limit(author_roles@, before.limits());
            let amount = before.amount() as int;
            if amount == 0 || amount > limit || amount < -limit {
                action is Reply && after.stage() is Done
            } else {
                action == TargetAction::DeferAndLoad { id: before.target_id() as i64 }
                    && !(after.stage() is Done)
            }
        }),
{
    lemma_amount_allowed_is_a_symmetric_bound(
        before.amount() as int,
        (1000 * held_limit(author_roles@, before.limits())) as int,
    );
}

/// Storing adds exactly the amount: an existing record keeps its id and name
/// and its credit moves by the amount, up or down, with no clamping; a target
/// without a record gets a new one, under its own id, holding just the amount.
pub proof fn lemma_store_adds_the_amount(
    before: TargetFlow,
    stored: Option<Model>,
    after: TargetFlow,
    action: TargetAction,
)
    requires
        before.stage() is AwaitingStored,
        step_outcome(before, TargetEvent::Loaded { stored }, after, action),
    ensures
        stored matches Some(record) ==> (action matches TargetAction::Update { user } && user.id
            == record.id && user.ign == record.ign && user.social_credit - record.social_credit
            == before.amount()),
        stored is None ==> (action matches TargetAction::Insert { user } && user.id
            == before.target_id() as i64 && user.social_credit == before.amount() && user.ign is None),
{
}

/// After the record is stored, the announcement shows the credit of the
/// record as stored and the magnitude of the amount on the image; once it is
/// sent, the very record that was stored is copied to the game server and the
/// command ends.
pub proof fn lemma_announce_then_sync(
    before: TargetFlow,
    user: Model,
    middle: TargetFlow,
    announce: TargetAction,
    after: TargetFlow,
    sync: TargetAction,
)
    requires
        before.stage() is AwaitingSaved,
        step_outcome(before, TargetEvent::Saved { user }, middle, announce),
        step_outcome(middle, TargetEvent::Replied, after, sync),
    ensures
        (announce matches TargetAction::Send { embed, image } && embed.footer@
            == "current social credit: "@ + signed_decimal(user.social_credit as int)
            && image.text@ == decimal(abs(before.amount() as int) as nat)),
        (sync == TargetAction::Sync { user }),
        after.stage() is Done,
{
}

// ----------------------------------------------------------------------------
// What the amount check and the announcement guarantee
// ----------------------------------------------------------------------------

/// An amount is allowed exactly when it is not zero and lies between `-limit`
/// and `limit`; so an amount is allowed exactly when its negation is.
pub proof fn lemma_amount_allowed_is_a_symmetric_bound(amount: int, limit: int)
    ensures
        amount_allowed(amount, limit) <==> (amount != 0 && -limit <= amount <= limit),
        amount_allowed(amount, limit) <==> amount_allowed(-amount, limit),
{
}

/// The refusal of an amount names the same range whatever the amount, and
/// adds " (excluding 0)" exactly when the amount was zero.
pub proof fn lemma_invalid_amount_message_shape(amount: int, limit: nat)
    ensures
        amount != 0 ==> invalid_amount_message(amount, limit) == invalid_amount_message(1, limit),
        invalid_amount_message(0, limit) == invalid_amount_message(1, limit)
            + " (excluding 0)"@,
{
}

/// Whatever the order of the table, the limit is that of the earliest entry
/// whose role the member holds, and 10 when they hold none.
pub proof fn lemma_first_held_entry_decides(roles: Seq<u64>, table: Seq<(u64, u64)>)
    ensures
        (forall|i: int| 0 <= i < table.len() ==> !roles.contains(#[trigger] table[i].0))
            ==> held_limit(roles, table) == 10,
        forall|i: int|
            0 <= i < table.len() && roles.contains(#[trigger] table[i].0) && (forall|j: int|
                0 <= j < i ==> !roles.contains(table[j].0)) ==> held_limit(roles, table)
                == table[i].1,
    decreases table.len(),
{
    if table.len() > 0 {
        let rest = table.drop_first();
        lemma_first_held_entry_decides(roles, rest);
        assert forall|i: int|
            0 <= i < table.len() && roles.contains(#[trigger] table[i].0) && (forall|j: int|
                0 <= j < i ==> !roles.contains(table[j].0)) implies held_limit(roles, table)
            == table[i].1 by {
            if i > 0 {
                assert(!roles.contains(table[0].0));
                assert(table[i] == rest[i - 1]);
                assert forall|j: int| 0 <= j < i - 1 implies !roles.contains(rest[j].0) by {
                    assert(rest[j] == table[j + 1]);
                }
            }
        }
        if forall|i: int| 0 <= i < table.len() ==> !roles.contains(#[trigger] table[i].0) {
            assert(!roles.contains(table[0].0));
            assert forall|i: int| 0 <= i < rest.len() implies !roles.contains(
                #[trigger] rest[i].0,
            ) by {
                assert(rest[i] == table[i + 1]);
            }
        }
    }
}

/// The announcement is red (0xC24A3F) exactly for a loss and green (0x2EB33E)
/// otherwise, whatever the credit the target ends with.
pub proof fn lemma_embed_color_follows_the_amount(
    embed: CreditEmbed,
    amount: int,
    target_id: u64,
    author_id: u64,
    credit: int,
)
    requires
        embed_says(embed, amount, target_id, author_id, credit),
    ensures
        amount < 0 ==> embed.color == 0xC24A3Fu32,
        amount >= 0 ==> embed.color == 0x2EB33Eu32,
{
}

// ----------------------------------------------------------------------------
// The game server scoreboard
// ----------------------------------------------------------------------------

/// How to set a player's score on the game server over RCON.
#[derive(Debug)]
pub struct ServerSync {
    pub address: String,
    pub password: String,
    pub command: String,
}

/// The scoreboard command that sets player `ign`'s score on `objective` to
/// `credit` cut to 32 bits.
pub open spec fn scoreboard_command(ign: Seq<char>, objective: Seq<char>, credit: i64) -> Seq<
    char,
> {
    "scoreboard players set "@ + ign + " "@ + objective + " "@ + signed_decimal(
        (credit as i32) as int,
    )
}

/// The RCON exchange that copies `user`'s social credit to the game server:
/// none for a user without an in-game name.
pub fn sync_plan(user: &Model, config: &Config) -> (plan: Option<ServerSync>)
    ensures
        plan is None <==> user.ign is None,
        plan matches Some(sync) ==> {
            &&& sync.address@ == config.rcon_ip@ + ":"@ + config.rcon_port@
            &&& sync.password@ == config.rcon_pass@
            &&& sync.command@ == scoreboard_command(
                user.ign->Some_0@,
                config.social_credit_objective@,
                user.social_credit,
            )
        },
{
    match &user.ign {
        None => None,
        Some(ign) => {
            let mut address = String::new();
            push_str(&mut address, config.rcon_ip.as_str());
            push_str(&mut address, ":");
            push_str(&mut address, config.rcon_port.as_str());
            let mut command = String::new();
            push_str(&mut command, "scoreboard players set ");
            push_str(&mut command, ign.as_str());
            push_str(&mut command, " ");
            push_str(&mut command, config.social_credit_objective.as_str());
            push_str(&mut command, " ");
            let score: i32 = #[verifier::truncate] (user.social_credit as i32);
            push_i64(&mut command, score as i64);
            Some(ServerSync { address, password: config.rcon_pass.clone(), command })
        },
    }
}

// ----------------------------------------------------------------------------
// The leaderboard
// ----------------------------------------------------------------------------

/// Line `n` (counting from 0) of a leaderboard: the place, the user and their credit.
pub open spec fn leaderboard_line(n: nat, user: Model) -> Seq<char> {
    decimal(n) + ". "@ + mention_text(user.id as u64) + ": "@ + signed_decimal(
        user.social_credit as int,
    )
}

/// The lines of a leaderboard for `users` in the order given.
pub open spec fn leaderboard_lines(users: Seq<Model>) -> Seq<Seq<char>> {
    Seq::new(users.len(), |n: int| leaderboard_line(n as nat, users[n]))
}

/// The leaderboard lines of `users`, one per user and numbered from 0,
/// separated by line breaks.
pub fn format_for_leaderboard(users: Vec<Model>) -> (text: String)
    requires
        forall|i: int| 0 <= i < users.len() ==> users@[i].id != 0,
    ensures
        text@ == joined(leaderboard_lines(users@), seq!['\n']),
{
    let mut lines: Vec<String> = Vec::new();
    let mut n: usize = 0;
    while n < users.len()
        invariant
            0 <= n <= users.len(),
            lines@.len() == n,
            forall|i: int| 0 <= i < users.len() ==> users@[i].id != 0,
            forall|k: int| 0 <= k < n ==> lines@[k]@ == leaderboard_line(k as nat, users@[k]),
        decreases users.len() - n,
    {
        let user = &users[n];
        let mut line = String::new();
        push_u64(&mut line, n as u64);
        push_str(&mut line, ". ");
        let id: i64 = user.id;
        let bits: u64 = #[verifier::truncate] (id as u64);
        assert(bits != 0) by (bit_vector)
            requires
                id != 0,
                bits == id as u64,
        ;
        let mention = user_mention(bits);
        push_str(&mut line, mention.as_str());
        push_str(&mut line, ": ");
        push_i64(&mut line, user.social_credit);
        lines.push(line);
        n = n + 1;
    }
    assert(texts(lines@) == leaderboard_lines(users@));
    join_lines(lines)
}

/// The text above and around the two halves of the leaderboard.
pub open spec fn leaderboard_text(top: Seq<char>, bottom: Seq<char>) -> Seq<char> {
    "\n\t\t## Social Credit Leaderboard\n\t\t**Top 5**\n\t\t"@ + top
        + "\n\n\t\t**Bottom 5**\n\t\t"@ + bottom + "\n\t\t"@
}

/// The leaderboard message around the best (`top`) and the worst (`bottom`) lines.
pub fn leaderboard_description(top: &String, bottom: &String) -> (text: String)
    ensures
        text@ == leaderboard_text(top@, bottom@),
{
    let mut text = String::new();
    push_str(&mut text, "\n\t\t## Social Credit Leaderboard\n\t\t**Top 5**\n\t\t");
    push_str(&mut text, top.as_str());
    push_str(&mut text, "\n\n\t\t**Bottom 5**\n\t\t");
    push_str(&mut text, bottom.as_str());
    push_str(&mut text, "\n\t\t");
    text
}

} // verus!
