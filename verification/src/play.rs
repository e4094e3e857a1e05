//! What happens to the player in one frame: contacts with ground, goal and
//! hazards, coins picked up, and which push the pressed keys choose.
//!
//! Entities are given by their 64-bit ids.

use vstd::prelude::*;
use crate::components::{Health, IsGround, XP};

verus! {

/// A contact reported by the physics engine between two entities.
#[derive(Clone, Copy, Debug, PartialEq, Eq, Structural)]
pub enum Contact {
    Started(u64, u64),
    Stopped(u64, u64),
}

/// Whether the contact between `a` and `b` is one between `other` and `child`.
pub open spec fn touches(other: u64, child: u64, a: u64, b: u64) -> bool {
    (other == a && child == b) || (other == b && child == a)
}

/// How many entries of `list` the contact between `a` and `b` joins to `child`.
pub open spec fn touching(list: Seq<u64>, child: u64, a: u64, b: u64) -> nat
    decreases list.len(),
{
    if list.len() == 0 {
        0
    } else {
        touching(list.drop_last(), child, a, b) + if touches(list.last(), child, a, b) { 1nat } else { 0nat }
    }
}

/// The player's state as the contacts of a frame change it, and what the
/// frame must do besides.
#[derive(Clone, Copy, Debug, PartialEq, Eq, Structural)]
pub struct CharacterState {
    pub health: Health,
    pub is_ground: IsGround,
    /// The goal was touched: the level is won (the cursor is set free).
    pub won: bool,
    /// A hazard was touched with one life left: the game is over (the
    /// cursor is set free).
    pub game_over: bool,
    /// The player is put back at the start, at rest.
    pub respawn: bool,
    /// The camera is put back at its start.
    pub camera_reset: bool,
}

/// One touch of a hazard: a life is lost while more than one is left; with
/// one (or none) left the game is over instead. Either way the player is
/// put back at the start.
pub open spec fn hit(s: CharacterState) -> CharacterState {
    if s.health.0 > 1 {
        CharacterState { health: Health((s.health.0 - 1) as u8), respawn: true, ..s }
    } else {
        CharacterState { respawn: true, camera_reset: true, game_over: true, ..s }
    }
}

/// `n` touches of hazards, one after another.
pub open spec fn hits(s: CharacterState, n: nat) -> CharacterState
    decreases n,
{
    if n == 0 {
        s
    } else {
        hit(hits(s, (n - 1) as nat))
    }
}

/// The effect of one contact on the player whose sensor entity is `child`.
pub open spec fn contact_effect(
    s: CharacterState,
    child: u64,
    grounds: Seq<u64>,
    goals: Seq<u64>,
    hazards: Seq<u64>,
    c: Contact,
) -> CharacterState {
    match c {
        Contact::Started(a, b) => {
            let on_ground = if touching(grounds, child, a, b) > 0 {
                CharacterState { is_ground: IsGround(true), ..s }
            } else {
                s
            };
            let at_goal = if touching(goals, child, a, b) > 0 {
                CharacterState { won: true, ..on_ground }
            } else {
                on_ground
            };
            hits(at_goal, touching(hazards, child, a, b))
        },
        Contact::Stopped(a, b) => {
            if touching(grounds, child, a, b) > 0 {
                CharacterState { is_ground: IsGround(false), ..s }
            } else {
                s
            }
        },
    }
}

/// The effect of the contacts of a frame, taken in order.
pub open spec fn contacts_effect(
    s: CharacterState,
    child: u64,
    grounds: Seq<u64>,
    goals: Seq<u64>,
    hazards: Seq<u64>,
    contacts: Seq<Contact>,
) -> CharacterState
    decreases contacts.len(),
{
    if contacts.len() == 0 {
        s
    } else {
        contact_effect(
            contacts_effect(s, child, grounds, goals, hazards, contacts.drop_last()),
            child,
            grounds,
            goals,
            hazards,
            contacts.last(),
        )
    }
}

/// Whether the contact between `a` and `b` joins `child` to some entry of `list`.
fn touches_any(list: &Vec<u64>, child: u64, a: u64, b: u64) -> (res: bool)
    ensures
        res == (touching(list@, child, a, b) > 0),
{
    let mut found = false;
    let mut i: usize = 0;
    while i < list.len()
        invariant
            i <= list.len(),
            found == (touching(list@.take(i as int), child, a, b) > 0),
        decreases list.len() - i,
    {
        let e = list[i];
        assert(list@.take(i + 1).drop_last() =~= list@.take(i as int));
        if (e == a && child == b) || (e == b && child == a) {
            found = true;
        }
        i = i + 1;
    }
    assert(list@.take(list.len() as int) =~= list@);
    found
}

/// Applies the hazards of `list` that the contact between `a` and `b` joins
/// to `child`, one by one.
fn apply_hazards(s: CharacterState, list: &Vec<u64>, child: u64, a: u64, b: u64) -> (res: CharacterState)
    ensures
        res == hits(s, touching(list@, child, a, b)),
{
    let mut cur = s;
    let mut i: usize = 0;
    while i < list.len()
        invariant
            i <= list.len(),
            cur == hits(s, touching(list@.take(i as int), child, a, b)),
        decreases list.len() - i,
    {
        let e = list[i];
        assert(list@.take(i + 1).drop_last() =~= list@.take(i as int));
        if (e == a && child == b) || (e == b && child == a) {
            if cur.health.0 > 1 {
                cur = CharacterState { health: Health(cur.health.0 - 1), respawn: true, ..cur };
            } else {
                cur = CharacterState { respawn: true, camera_reset: true, game_over: true, ..cur };
            }
        }
        i = i + 1;
    }
    assert(list@.take(list.len() as int) =~= list@);
    cur
}

/// The player's state after the contacts of a frame: touching ground makes
/// it grounded and leaving ground ends that, touching the goal wins, and
/// each touch of a hazard costs a life or, with one left, ends the game.
/// `child` is the player's sensor entity.
pub fn character_contacts(
    start: CharacterState,
    child: u64,
    grounds: &Vec<u64>,
    goals: &Vec<u64>,
    hazards: &Vec<u64>,
    contacts: &Vec<Contact>,
) -> (res: CharacterState)
    ensures
        res == contacts_effect(start, child, grounds@, goals@, hazards@, contacts@),
{
    let mut s = start;
    let mut i: usize = 0;
    while i < contacts.len()
        invariant
            i <= contacts.len(),
            s == contacts_effect(start, child, grounds@, goals@, hazards@, contacts@.take(i as int)),
        decreases contacts.len() - i,
    {
        let c = contacts[i];
        assert(contacts@.take(i + 1).drop_last() =~= contacts@.take(i as int));
        match c {
            Contact::Started(a, b) => {
                if touches_any(grounds, child, a, b) {
                    s = CharacterState { is_ground: IsGround(true), ..s };
                }
                if touches_any(goals, child, a, b) {
                    s = CharacterState { won: true, ..s };
                }
                s = apply_hazards(s, hazards, child, a, b);
            },
            Contact::Stopped(a, b) => {
                if touches_any(grounds, child, a, b) {
                    s = CharacterState { is_ground: IsGround(false), ..s };
                }
            },
        }
        i = i + 1;
    }
    assert(contacts@.take(contacts.len() as int) =~= contacts@);
    s
}

/// The effect of `n` hazard touches in closed form.
proof fn lemma_hits(s: CharacterState, n: nat)
    ensures
        hits(s, n).health.0 == (if s.health.0 > n {
            s.health.0 - n
        } else if s.health.0 >= 1 {
            1
        } else {
            0
        }),
        hits(s, n).game_over == (s.game_over || (n > 0 && n >= s.health.0)),
        hits(s, n).camera_reset == (s.camera_reset || (n > 0 && n >= s.health.0)),
        hits(s, n).respawn == (s.respawn || n > 0),
        hits(s, n).won == s.won,
        hits(s, n).is_ground == s.is_ground,
    decreases n,
{
    if n > 0 {
        lemma_hits(s, (n - 1) as nat);
    }
}

/// What one contact can do to lives and to the end of the game.
proof fn lemma_contact_effect(
    s: CharacterState,
    child: u64,
    grounds: Seq<u64>,
    goals: Seq<u64>,
    hazards: Seq<u64>,
    c: Contact,
)
    ensures
        ({
            let r = contact_effect(s, child, grounds, goals, hazards, c);
            &&& r.health.0 <= s.health.0
            &&& s.health.0 >= 1 ==> r.health.0 >= 1
            &&& s.won ==> r.won
            &&& s.game_over ==> r.game_over
            &&& r.game_over && !s.game_over ==> r.health.0 <= 1
            &&& r.health.0 < s.health.0 ==> r.respawn
        }),
{
    match c {
        Contact::Started(a, b) => {
            let on_ground = if touching(grounds, child, a, b) > 0 {
                CharacterState { is_ground: IsGround(true), ..s }
            } else {
                s
            };
            let at_goal = if touching(goals, child, a, b) > 0 {
                CharacterState { won: true, ..on_ground }
            } else {
                on_ground
            };
            lemma_hits(at_goal, touching(hazards, child, a, b));
        },
        Contact::Stopped(a, b) => {},
    }
}

/// Laws of a frame's contacts, for any starting state and any contacts:
/// lives never grow; a player with a life keeps at least one; a won level
/// stays won and an ended game stays ended; the game ends only once the
/// lives are down to one (or none); and whenever a life is lost the player
/// is put back at the start.
pub proof fn lemma_contact_laws(
    s: CharacterState,
    child: u64,
    grounds: Seq<u64>,
    goals: Seq<u64>,
    hazards: Seq<u64>,
    contacts: Seq<Contact>,
)
    ensures
        ({
            let r = contacts_effect(s, child, grounds, goals, hazards, contacts);
            &&& r.health.0 <= s.health.0
            &&& s.health.0 >= 1 ==> r.health.0 >= 1
            &&& s.won ==> r.won
            &&& s.game_over ==> r.game_over
            &&& r.game_over && !s.game_over ==> r.health.0 <= 1
            &&& r.health.0 < s.health.0 ==> r.respawn
        }),
    decreases contacts.len(),
{
    if contacts.len() > 0 {
        let before = contacts_effect(s, child, grounds, goals, hazards, contacts.drop_last());
        lemma_contact_laws(s, child, grounds, goals, hazards, contacts.drop_last());
        lemma_contact_effect(before, child, grounds, goals, hazards, contacts.last());
        assert(before.health.0 < s.health.0 ==> before.respawn);
        let r = contact_effect(before, child, grounds, goals, hazards, contacts.last());
        assert(before.respawn ==> r.respawn) by {
            match contacts.last() {
                Contact::Started(a, b) => {
                    let on_ground = if touching(grounds, child, a, b) > 0 {
                        CharacterState { is_ground: IsGround(true), ..before }
                    } else {
                        before
                    };
                    let at_goal = if touching(goals, child, a, b) > 0 {
                        CharacterState { won: true, ..on_ground }
                    } else {
                        on_ground
                    };
                    lemma_hits(at_goal, touching(hazards, child, a, b));
                },
                Contact::Stopped(a, b) => {},
            }
        }
    }
}

/// The coins of `coins` that start touching `player` in one contact, in
/// the order of `coins`.
pub open spec fn coins_touched(player: u64, coins: Seq<u64>, a: u64, b: u64) -> Seq<u64> {
    coins.filter(|c: u64| touches(c, player, a, b))
}

/// The coins picked up in a frame: for each started contact in order, the
/// coins it joins to the player. A coin met by two contacts of one frame is
/// picked twice (its removal only takes effect after the frame).
pub open spec fn pickups(player: u64, coins: Seq<u64>, contacts: Seq<Contact>) -> Seq<u64>
    decreases contacts.len(),
{
    if contacts.len() == 0 {
        seq![]
    } else {
        pickups(player, coins, contacts.drop_last()) + match contacts.last() {
            Contact::Started(a, b) => coins_touched(player, coins, a, b),
            Contact::Stopped(_, _) => seq![],
        }
    }
}

/// The coins picked up by `player` in a frame; each is worth one point and
/// is removed from the level.
pub fn coin_pickups(player: u64, coins: &Vec<u64>, contacts: &Vec<Contact>) -> (res: Vec<u64>)
    ensures
        res@ == pickups(player, coins@, contacts@),
{
    let mut res: Vec<u64> = Vec::new();
    let mut i: usize = 0;
    while i < contacts.len()
        invariant
            i <= contacts.len(),
            res@ == pickups(player, coins@, contacts@.take(i as int)),
        decreases contacts.len() - i,
    {
        assert(contacts@.take(i + 1).drop_last() =~= contacts@.take(i as int));
        match contacts[i] {
            Contact::Started(a, b) => {
                let ghost before = res@;
                let mut j: usize = 0;
                while j < coins.len()
                    invariant
                        j <= coins.len(),
                        res@ == before + coins_touched(player, coins@.take(j as int), a, b),
                    decreases coins.len() - j,
                {
                    let c = coins[j];
                    proof {
                        let pred = |x: u64| touches(x, player, a, b);
                        assert(coins@.take(j + 1).drop_last() =~= coins@.take(j as int));
                        reveal_with_fuel(Seq::filter, 1);
                        assert(coins@.take(j + 1).filter(pred) == {
                            let f = coins@.take(j as int).filter(pred);
                            if pred(c) { f.push(c) } else { f }
                        });
                    }
                    if (player == a && c == b) || (player == b && c == a) {
                        res.push(c);
                    }
                    j = j + 1;
                }
                assert(coins@.take(coins.len() as int) =~= coins@);
            },
            Contact::Stopped(_, _) => {
                assert(res@ =~= res@ + seq![]);
            },
        }
        i = i + 1;
    }
    assert(contacts@.take(contacts.len() as int) =~= contacts@);
    res
}

/// Points after `n` more coins (the sum must fit in the counter; an
/// overflowing counter is a fatal error of the game).
pub fn add_xp(xp: XP, n: usize) -> (res: XP)
    requires
        xp.0 + n <= u16::MAX,
    ensures
        res.0 == xp.0 + n,
{
    XP(xp.0 + n as u16)
}

/// The movement keys held this frame, and whether jump was just pressed.
#[derive(Clone, Copy, Debug, PartialEq, Eq, Structural)]
pub struct MoveKeys {
    pub forward: bool,
    pub back: bool,
    pub left: bool,
    pub right: bool,
    pub jump: bool,
}

/// The push given to the player: along the view, across it, both, or up.
#[derive(Clone, Copy, Debug, PartialEq, Eq, Structural)]
pub enum Push {
    Forward,
    Back,
    Left,
    Right,
    ForwardLeft,
    BackLeft,
    ForwardRight,
    BackRight,
    Jump,
}

/// The push the keys choose: a jump from the ground first, then the
/// diagonals (back-right, forward-right, back-left, forward-left), then
/// the single directions (right, left, back, forward); `None` when no key
/// applies, and the previous push stays.
pub open spec fn push_for(keys: MoveKeys, on_ground: bool) -> Option<Push> {
    if keys.jump && on_ground {
        Some(Push::Jump)
    } else if keys.back && keys.right {
        Some(Push::BackRight)
    } else if keys.forward && keys.right {
        Some(Push::ForwardRight)
    } else if keys.back && keys.left {
        Some(Push::BackLeft)
    } else if keys.forward && keys.left {
        Some(Push::ForwardLeft)
    } else if keys.right {
        Some(Push::Right)
    } else if keys.left {
        Some(Push::Left)
    } else if keys.back {
        Some(Push::Back)
    } else if keys.forward {
        Some(Push::Forward)
    } else {
        None
    }
}

/// The push chosen by the keys of this frame: the keys are tested from the
/// single directions to the diagonals and the jump, and a later match
/// overrides an earlier one.
pub fn choose_push(keys: MoveKeys, on_ground: IsGround) -> (res: Option<Push>)
    ensures
        res == push_for(keys, on_ground.0),
{
    let mut push: Option<Push> = None;
    if keys.forward {
        push = Some(Push::Forward);
    }
    if keys.back {
        push = Some(Push::Back);
    }
    if keys.left {
        push = Some(Push::Left);
    }
    if keys.right {
        push = Some(Push::Right);
    }
    if keys.forward && keys.left {
        push = Some(Push::ForwardLeft);
    }
    if keys.back && keys.left {
        push = Some(Push::BackLeft);
    }
    if keys.forward && keys.right {
        push = Some(Push::ForwardRight);
    }
    if keys.back && keys.right {
        push = Some(Push::BackRight);
    }
    if keys.jump && on_ground.0 {
        push = Some(Push::Jump);
    }
    push
}

/// Every coin picked up in a frame is one of the level's coins, and only
/// started contacts pick coins up.
pub proof fn lemma_pickups_are_coins(player: u64, coins: Seq<u64>, contacts: Seq<Contact>)
    ensures
        forall|x: u64| pickups(player, coins, contacts).contains(x) ==> coins.contains(x),
        (forall|i: int| 0 <= i < contacts.len() ==> #[trigger] contacts[i] is Stopped)
            ==> pickups(player, coins, contacts).len() == 0,
    decreases contacts.len(),
{
    if contacts.len() > 0 {
        let rest = contacts.drop_last();
        lemma_pickups_are_coins(player, coins, rest);
        assert forall|x: u64| pickups(player, coins, contacts).contains(x) implies coins.contains(x) by {
            let p = pickups(player, coins, rest);
            match contacts.last() {
                Contact::Started(a, b) => {
                    let t = coins_touched(player, coins, a, b);
                    if !p.contains(x) {
                        let k = choose|k: int| 0 <= k < (p + t).len() && (p + t)[k] == x;
                        if k < p.len() {
                            assert(p[k] == x);
                        }
                        assert(t.contains(x)) by {
                            assert(t[k - p.len()] == x);
                        }
                        coins.lemma_filter_contains_rev(|c: u64| touches(c, player, a, b), x);
                    }
                },
                Contact::Stopped(_, _) => {
                    assert(pickups(player, coins, contacts) =~= p);
                },
            }
        }
        if forall|i: int| 0 <= i < contacts.len() ==> #[trigger] contacts[i] is Stopped {
            assert forall|i: int| 0 <= i < rest.len() implies #[trigger] rest[i] is Stopped by {
                assert(rest[i] == contacts[i]);
            }
            assert(contacts.last() is Stopped) by {
                assert(contacts[contacts.len() - 1] is Stopped);
            }
        }
    }
}

/// The number of hazard touches in a frame: for each started contact in
/// order, the hazards it joins to `child`.
pub open spec fn hazard_touches(child: u64, hazards: Seq<u64>, contacts: Seq<Contact>) -> nat
    decreases contacts.len(),
{
    if contacts.len() == 0 {
        0
    } else {
        hazard_touches(child, hazards, contacts.drop_last()) + match contacts.last() {
            Contact::Started(a, b) => touching(hazards, child, a, b),
            Contact::Stopped(_, _) => 0nat,
        }
    }
}

/// The lives left after `k` hazard touches starting from `h`: one less per
/// touch, but never below one (none stay none).
pub open spec fn lives_after(h: int, k: int) -> int {
    if h > k {
        h - k
    } else if h >= 1 {
        1
    } else {
        0
    }
}

/// The lives, the end of the game, the camera reset and the respawn of a
/// frame in closed form, with `k` the frame's hazard touches: the lives
/// become `lives_after(h, k)` (for `h >= 1`: the larger of `h - k` and 1);
/// the game ends exactly when `k >= h` (and `k > 0`), and so is the camera
/// put back; the player is put back exactly when `k >= 1`. Ground and goal
/// contacts change none of these.
pub proof fn lemma_frame_lives(
    s: CharacterState,
    child: u64,
    grounds: Seq<u64>,
    goals: Seq<u64>,
    hazards: Seq<u64>,
    contacts: Seq<Contact>,
)
    ensures
        ({
            let r = contacts_effect(s, child, grounds, goals, hazards, contacts);
            let k = hazard_touches(child, hazards, contacts);
            let h = s.health.0;
            &&& r.health.0 == lives_after(h as int, k as int)
            &&& r.game_over == (s.game_over || (k > 0 && k >= h))
            &&& r.camera_reset == (s.camera_reset || (k > 0 && k >= h))
            &&& r.respawn == (s.respawn || k > 0)
            &&& h >= 1 ==> r.health.0 == (if h > k { h - k } else { 1 })
            &&& h >= 1 && !s.game_over ==> (r.game_over <==> k >= h)
            &&& h >= 1 && !s.camera_reset ==> (r.camera_reset <==> k >= h)
            &&& !s.respawn ==> (r.respawn <==> k >= 1)
        }),
    decreases contacts.len(),
{
    if contacts.len() > 0 {
        let rest = contacts.drop_last();
        lemma_frame_lives(s, child, grounds, goals, hazards, rest);
        let before = contacts_effect(s, child, grounds, goals, hazards, rest);
        match contacts.last() {
            Contact::Started(a, b) => {
                let on_ground = if touching(grounds, child, a, b) > 0 {
                    CharacterState { is_ground: IsGround(true), ..before }
                } else {
                    before
                };
                let at_goal = if touching(goals, child, a, b) > 0 {
                    CharacterState { won: true, ..on_ground }
                } else {
                    on_ground
                };
                lemma_hits(at_goal, touching(hazards, child, a, b));
            },
            Contact::Stopped(_, _) => {},
        }
    }
}

/// Whether a contact joins `other` and `child`, taken in either order.
proof fn lemma_touching_symmetric(list: Seq<u64>, child: u64, a: u64, b: u64)
    ensures
        touching(list, child, a, b) == touching(list, child, b, a),
    decreases list.len(),
{
    if list.len() > 0 {
        lemma_touching_symmetric(list.drop_last(), child, a, b);
    }
}

/// An entity of a list touches `child` in a contact of the two.
proof fn lemma_touching_member(list: Seq<u64>, child: u64, e: u64)
    requires
        list.contains(e),
    ensures
        touching(list, child, e, child) > 0,
        touching(list, child, child, e) > 0,
    decreases list.len(),
{
    let k = choose|k: int| 0 <= k < list.len() && list[k] == e;
    if k < list.len() - 1 {
        assert(list.drop_last()[k] == e);
        lemma_touching_member(list.drop_last(), child, e);
    }
}

/// A contact acts the same whichever of its two entities comes first; in
/// particular, starting to touch a ground entity makes the player grounded
/// and leaving it (in either order) ends that, and starting to touch a goal
/// (in either order) wins the level.
pub proof fn lemma_contact_symmetric(
    s: CharacterState,
    child: u64,
    grounds: Seq<u64>,
    goals: Seq<u64>,
    hazards: Seq<u64>,
    a: u64,
    b: u64,
)
    ensures
        contact_effect(s, child, grounds, goals, hazards, Contact::Started(a, b))
            == contact_effect(s, child, grounds, goals, hazards, Contact::Started(b, a)),
        contact_effect(s, child, grounds, goals, hazards, Contact::Stopped(a, b))
            == contact_effect(s, child, grounds, goals, hazards, Contact::Stopped(b, a)),
        grounds.contains(a) && b == child ==> contact_effect(s, child, grounds, goals, hazards, Contact::Stopped(a, b)).is_ground == IsGround(false),
        grounds.contains(a) && b == child ==> contact_effect(s, child, grounds, goals, hazards, Contact::Stopped(b, a)).is_ground == IsGround(false),
        grounds.contains(a) && b == child ==> contact_effect(s, child, grounds, goals, hazards, Contact::Started(a, b)).is_ground == IsGround(true),
        goals.contains(a) && b == child ==> contact_effect(s, child, grounds, goals, hazards, Contact::Started(a, b)).won,
{
    lemma_touching_symmetric(grounds, child, a, b);
    lemma_touching_symmetric(goals, child, a, b);
    lemma_touching_symmetric(hazards, child, a, b);
    if grounds.contains(a) && b == child {
        lemma_touching_member(grounds, child, a);
    }
    if goals.contains(a) && b == child {
        lemma_touching_member(goals, child, a);
    }
    let on_ground = if touching(grounds, child, a, b) > 0 {
        CharacterState { is_ground: IsGround(true), ..s }
    } else {
        s
    };
    let at_goal = if touching(goals, child, a, b) > 0 {
        CharacterState { won: true, ..on_ground }
    } else {
        on_ground
    };
    lemma_hits(at_goal, touching(hazards, child, a, b));
}

/// The last contact of a frame decides the ground flag when it is one
/// with a ground entity: the player ends the frame grounded after starting
/// to touch it and not grounded after leaving it, in either order.
pub proof fn lemma_last_ground_contact(
    s: CharacterState,
    child: u64,
    grounds: Seq<u64>,
    goals: Seq<u64>,
    hazards: Seq<u64>,
    contacts: Seq<Contact>,
    g: u64,
)
    requires
        grounds.contains(g),
    ensures
        contacts_effect(s, child, grounds, goals, hazards, contacts.push(Contact::Stopped(g, child))).is_ground
            == IsGround(false),
        contacts_effect(s, child, grounds, goals, hazards, contacts.push(Contact::Stopped(child, g))).is_ground
            == IsGround(false),
        contacts_effect(s, child, grounds, goals, hazards, contacts.push(Contact::Started(g, child))).is_ground
            == IsGround(true),
        contacts_effect(s, child, grounds, goals, hazards, contacts.push(Contact::Started(child, g))).is_ground
            == IsGround(true),
{
    let before = contacts_effect(s, child, grounds, goals, hazards, contacts);
    assert(contacts.push(Contact::Stopped(g, child)).drop_last() =~= contacts);
    assert(contacts.push(Contact::Stopped(child, g)).drop_last() =~= contacts);
    assert(contacts.push(Contact::Started(g, child)).drop_last() =~= contacts);
    assert(contacts.push(Contact::Started(child, g)).drop_last() =~= contacts);
    lemma_contact_symmetric(before, child, grounds, goals, hazards, g, child);
}

proof fn lemma_touched_step(player: u64, coins: Seq<u64>, a: u64, b: u64)
    requires
        coins.len() > 0,
    ensures
        coins_touched(player, coins, a, b) == (if touches(coins.last(), player, a, b) {
            coins_touched(player, coins.drop_last(), a, b).push(coins.last())
        } else {
            coins_touched(player, coins.drop_last(), a, b)
        }),
{
    reveal_with_fuel(Seq::filter, 1);
}

/// The coins of `coins` equal to `c`.
proof fn lemma_touched_coin(player: u64, coins: Seq<u64>, c: u64)
    requires
        player != c,
        coins.no_duplicates(),
        coins.contains(c),
    ensures
        coins_touched(player, coins, player, c) == seq![c],
        coins_touched(player, coins, c, player) == seq![c],
    decreases coins.len(),
{
    let rest = coins.drop_last();
    lemma_touched_step(player, coins, player, c);
    lemma_touched_step(player, coins, c, player);
    assert(rest.no_duplicates());
    if coins.last() == c {
        assert(!rest.contains(c)) by {
            if rest.contains(c) {
                let k = choose|k: int| 0 <= k < rest.len() && rest[k] == c;
                assert(coins[k] == coins[coins.len() - 1]);
            }
        }
        lemma_no_touched_coin(player, rest, c);
    } else {
        let k = choose|k: int| 0 <= k < coins.len() && coins[k] == c;
        assert(rest[k] == c);
        lemma_touched_coin(player, rest, c);
    }
    assert(Seq::<u64>::empty().push(c) =~= seq![c]);
}

proof fn lemma_no_touched_coin(player: u64, coins: Seq<u64>, c: u64)
    requires
        player != c,
        !coins.contains(c),
    ensures
        coins_touched(player, coins, player, c) == Seq::<u64>::empty(),
        coins_touched(player, coins, c, player) == Seq::<u64>::empty(),
    decreases coins.len(),
{
    if coins.len() > 0 {
        let rest = coins.drop_last();
        lemma_touched_step(player, coins, player, c);
        lemma_touched_step(player, coins, c, player);
        assert(!rest.contains(c)) by {
            if rest.contains(c) {
                let k = choose|k: int| 0 <= k < rest.len() && rest[k] == c;
                assert(coins[k] == c);
            }
        }
        lemma_no_touched_coin(player, rest, c);
        assert(coins.last() != c) by {
            assert(coins[coins.len() - 1] == coins.last());
        }
    } else {
        reveal_with_fuel(Seq::filter, 1);
        assert(coins_touched(player, coins, player, c) =~= Seq::<u64>::empty());
        assert(coins_touched(player, coins, c, player) =~= Seq::<u64>::empty());
    }
}

/// Each started contact between the player and a coin picks that coin up,
/// once, after the pickups of the contacts before it (in either order of the
/// two entities); a contact that stops picks nothing up. Coins are distinct
/// entities, none of them the player.
pub proof fn lemma_pickup_appends(player: u64, coins: Seq<u64>, contacts: Seq<Contact>, c: u64, a: u64, b: u64)
    requires
        coins.no_duplicates(),
        coins.contains(c),
        !coins.contains(player),
    ensures
        pickups(player, coins, contacts.push(Contact::Started(player, c))) == pickups(player, coins, contacts).push(c),
        pickups(player, coins, contacts.push(Contact::Started(c, player))) == pickups(player, coins, contacts).push(c),
        pickups(player, coins, contacts.push(Contact::Stopped(a, b))) == pickups(player, coins, contacts),
        pickups(player, coins, seq![Contact::Started(player, c)]) == seq![c],
{
    assert(player != c);
    lemma_touched_coin(player, coins, c);
    assert(contacts.push(Contact::Started(player, c)).drop_last() =~= contacts);
    assert(contacts.push(Contact::Started(c, player)).drop_last() =~= contacts);
    assert(contacts.push(Contact::Stopped(a, b)).drop_last() =~= contacts);
    assert(pickups(player, coins, contacts) + seq![c] =~= pickups(player, coins, contacts).push(c));
    assert(pickups(player, coins, contacts) + seq![] =~= pickups(player, coins, contacts));
    let one = seq![Contact::Started(player, c)];
    assert(one.drop_last() =~= Seq::<Contact>::empty());
    assert(one.last() == Contact::Started(player, c));
    assert(pickups(player, coins, Seq::<Contact>::empty()) == Seq::<u64>::empty());
    assert(Seq::<u64>::empty() + seq![c] =~= seq![c]);
    assert(pickups(player, coins, one) == pickups(player, coins, one.drop_last()) + coins_touched(player, coins, player, c));
}

/// Left and right are mirror images of each other, and so are forward and
/// back: mirroring the keys mirrors the chosen push. A single held direction
/// key pushes that way, and jumping from the ground overrides every key.
/// (When both keys of a pair are held, the later test in the key order
/// wins, so the mirror law is stated for the other key sets.)
pub proof fn lemma_push_mirror(keys: MoveKeys, on_ground: bool)
    ensures
        !(keys.left && keys.right) ==> push_for(
            MoveKeys { left: keys.right, right: keys.left, ..keys },
            on_ground,
        ) == mirror_sideways(push_for(keys, on_ground)),
        !(keys.forward && keys.back) ==> push_for(
            MoveKeys { forward: keys.back, back: keys.forward, ..keys },
            on_ground,
        ) == mirror_lengthways(push_for(keys, on_ground)),
        push_for(MoveKeys { forward: false, back: false, left: true, right: false, jump: false }, on_ground)
            == Some(Push::Left),
        push_for(MoveKeys { forward: false, back: false, left: false, right: true, jump: false }, on_ground)
            == Some(Push::Right),
        push_for(MoveKeys { forward: true, back: false, left: false, right: false, jump: false }, on_ground)
            == Some(Push::Forward),
        push_for(MoveKeys { forward: false, back: true, left: false, right: false, jump: false }, on_ground)
            == Some(Push::Back),
        keys.jump && on_ground ==> push_for(keys, on_ground) == Some(Push::Jump),
        !keys.jump && !keys.forward && !keys.back && !keys.left && !keys.right ==> push_for(keys, on_ground) is None,
{
}

/// A push with left and right exchanged.
pub open spec fn mirror_sideways(p: Option<Push>) -> Option<Push> {
    match p {
        Some(Push::Left) => Some(Push::Right),
        Some(Push::Right) => Some(Push::Left),
        Some(Push::ForwardLeft) => Some(Push::ForwardRight),
        Some(Push::ForwardRight) => Some(Push::ForwardLeft),
        Some(Push::BackLeft) => Some(Push::BackRight),
        Some(Push::BackRight) => Some(Push::BackLeft),
        other => other,
    }
}

/// A push with forward and back exchanged.
pub open spec fn mirror_lengthways(p: Option<Push>) -> Option<Push> {
    match p {
        Some(Push::Forward) => Some(Push::Back),
        Some(Push::Back) => Some(Push::Forward),
        Some(Push::ForwardLeft) => Some(Push::BackLeft),
        Some(Push::BackLeft) => Some(Push::ForwardLeft),
        Some(Push::ForwardRight) => Some(Push::BackRight),
        Some(Push::BackRight) => Some(Push::ForwardRight),
        other => other,
    }
}

} // verus!
