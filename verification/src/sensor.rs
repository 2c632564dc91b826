//! Trigger volumes: from the collisions of one frame to the crossings they
//! amount to and the light colours that follow.

use std::collections::HashMap;
use std::collections::HashSet;
use vstd::prelude::*;
use vstd::seq_lib::lemma_multiset_commutative;

verus! {

broadcast use vstd::std_specs::hash::group_hash_axioms;

/// The colour of a sensor's light: red while the volume is empty, green
/// while the player is inside.
#[derive(Clone, Copy, Debug, PartialEq, Eq, Structural)]
pub enum LightColor {
    Red,
    Green,
}

/// Whether two bodies began or stopped touching.
#[derive(Clone, Copy, Debug, PartialEq, Eq, Structural)]
pub enum Contact {
    Started,
    Ended,
}

/// One collision notice: a pair of entities, in the order the physics
/// engine reported them. The order carries no meaning.
#[derive(Clone, Copy, Debug, PartialEq, Eq, Structural)]
pub struct Collision {
    pub first: u64,
    pub second: u64,
}

/// A player entering (`Started`) or leaving (`Ended`) a sensor volume.
#[derive(Clone, Copy, Debug, PartialEq, Eq, Structural)]
pub struct Crossing {
    pub contact: Contact,
    pub player: u64,
    pub sensor: u64,
}

/// An order to set one light's colour.
#[derive(Clone, Copy, Debug, PartialEq, Eq, Structural)]
pub struct LightChange {
    pub light: u64,
    pub color: LightColor,
}

/// What one frame's collisions amount to.
#[derive(Clone, Debug, PartialEq, Eq)]
pub struct Outcome {
    /// The crossings found, those of the started collisions first.
    pub crossings: Vec<Crossing>,
    /// The colour changes they call for, in the order to apply them.
    pub changes: Vec<LightChange>,
}

/// What the logic reads of the world in one frame.
pub struct Scene {
    /// The entities tagged as player.
    pub players: HashSet<u64>,
    /// The entities tagged as sensor area that have children, each with its
    /// children in order.
    pub sensors: HashMap<u64, Vec<u64>>,
    /// The entities that carry a point light.
    pub lights: HashSet<u64>,
}

/// The mathematical content of a [`Scene`].
pub struct SceneView {
    pub players: Set<u64>,
    pub sensors: Map<u64, Seq<u64>>,
    pub lights: Set<u64>,
}

impl View for Scene {
    type V = SceneView;

    open spec fn view(&self) -> SceneView {
        SceneView {
            players: self.players@,
            sensors: self.sensors@.map_values(|children: Vec<u64>| children@),
            lights: self.lights@,
        }
    }
}

impl Collision {
    /// The same collision with its two entities in the other order.
    pub open spec fn swapped(self) -> Collision {
        Collision { first: self.second, second: self.first }
    }
}

impl Contact {
    /// The colour that a crossing of this kind gives the sensor's lights:
    /// green on entering, red on leaving.
    pub open spec fn color(self) -> LightColor {
        match self {
            Contact::Started => LightColor::Green,
            Contact::Ended => LightColor::Red,
        }
    }

    /// The colour that a crossing of this kind gives the sensor's lights.
    pub fn light_color(self) -> (color: LightColor)
        ensures
            color == self.color(),
    {
        match self {
            Contact::Started => LightColor::Green,
            Contact::Ended => LightColor::Red,
        }
    }
}

impl SceneView {
    /// A pair of entities counts when the first is a player and the second
    /// a sensor area.
    pub open spec fn is_crossing(self, player: u64, sensor: u64) -> bool {
        self.players.contains(player) && self.sensors.contains_key(sensor)
    }

    /// The crossing that an ordered pair stands for, if it stands for one.
    pub open spec fn crossing(self, contact: Contact, player: u64, sensor: u64) -> Seq<Crossing> {
        if self.is_crossing(player, sensor) {
            seq![Crossing { contact, player, sensor }]
        } else {
            Seq::empty()
        }
    }

    /// The crossings of one collision: the pair is read in the order given
    /// and then the other way round.
    pub open spec fn crossings_of(self, contact: Contact, collision: Collision) -> Seq<Crossing> {
        self.crossing(contact, collision.first, collision.second) + self.crossing(
            contact,
            collision.second,
            collision.first,
        )
    }

    /// The crossings of a run of collisions of one kind, in order.
    pub open spec fn crossings(self, contact: Contact, collisions: Seq<Collision>) -> Seq<Crossing> {
        collisions.map_values(|c: Collision| self.crossings_of(contact, c)).flatten()
    }

    /// The crossings of a frame: the started collisions are read before the
    /// ended ones.
    pub open spec fn frame_crossings(self, started: Seq<Collision>, ended: Seq<Collision>) -> Seq<
        Crossing,
    > {
        self.crossings(Contact::Started, started) + self.crossings(Contact::Ended, ended)
    }

    /// The children of a sensor area that carry a light, in order; none
    /// where the entity is no sensor area.
    pub open spec fn lit_children(self, sensor: u64) -> Seq<u64> {
        if self.sensors.contains_key(sensor) {
            self.sensors[sensor].filter(|child: u64| self.lights.contains(child))
        } else {
            Seq::empty()
        }
    }

    /// The colour changes of one crossing: each lit child of the sensor
    /// takes the colour of the crossing's kind.
    pub open spec fn changes_of(self, crossing: Crossing) -> Seq<LightChange> {
        self.lit_children(crossing.sensor).map_values(
            |light: u64| LightChange { light, color: crossing.contact.color() },
        )
    }

    /// The colour changes of a run of crossings, in order.
    pub open spec fn changes(self, crossings: Seq<Crossing>) -> Seq<LightChange> {
        crossings.map_values(|x: Crossing| self.changes_of(x)).flatten()
    }
}

/// The order of the two entities within a collision decides nothing but the
/// order of its crossings: read either way round, a collision amounts to
/// the same crossings, each as often.
pub proof fn lemma_pair_order(scene: SceneView, contact: Contact, collision: Collision)
    ensures
        scene.crossings_of(contact, collision.swapped()).to_multiset() == scene.crossings_of(
            contact,
            collision,
        ).to_multiset(),
{
    let forth = scene.crossing(contact, collision.first, collision.second);
    let back = scene.crossing(contact, collision.second, collision.first);
    lemma_multiset_commutative(forth, back);
    lemma_multiset_commutative(back, forth);
    assert(forth.to_multiset().add(back.to_multiset()) =~= back.to_multiset().add(
        forth.to_multiset(),
    ));
}

impl Scene {
    /// Tells whether `player` is a player and `sensor` a sensor area.
    pub fn is_crossing(&self, player: u64, sensor: u64) -> (hit: bool)
        ensures
            hit == self@.is_crossing(player, sensor),
    {
        self.players.contains(&player) && self.sensors.contains_key(&sensor)
    }

    /// Finds the crossings in a run of collisions of one kind.
    pub fn detect_crossings(&self, contact: Contact, collisions: &Vec<Collision>) -> (found: Vec<
        Crossing,
    >)
        ensures
            found@ == self@.crossings(contact, collisions@),
    {
        let mut found: Vec<Crossing> = Vec::new();
        let ghost per = |c: Collision| self@.crossings_of(contact, c);
        let mut i: usize = 0;
        while i < collisions.len()
            invariant
                i <= collisions.len(),
                per == |c: Collision| self@.crossings_of(contact, c),
                found@ == collisions@.take(i as int).map_values(per).flatten(),
            decreases collisions.len() - i,
        {
            let c = collisions[i];
            let ghost before = found@;
            if self.is_crossing(c.first, c.second) {
                found.push(Crossing { contact, player: c.first, sensor: c.second });
            }
            if self.is_crossing(c.second, c.first) {
                found.push(Crossing { contact, player: c.second, sensor: c.first });
            }
            proof {
                let head = collisions@.take(i as int);
                assert(found@ =~= before + per(c));
                assert(collisions@.take(i + 1) =~= head.push(c));
                assert(head.push(c).map_values(per) =~= head.map_values(per).push(per(c)));
                head.map_values(per).lemma_flatten_push(per(c));
            }
            i += 1;
        }
        assert(collisions@.take(i as int) =~= collisions@);
        found
    }

    /// Appends to `changes` the colour changes that one crossing calls for.
    fn push_changes_of(&self, crossing: Crossing, changes: &mut Vec<LightChange>)
        ensures
            final(changes)@ == old(changes)@ + self@.changes_of(crossing),
    {
        let color = crossing.contact.light_color();
        let ghost lit = |child: u64| self@.lights.contains(child);
        let ghost order = |light: u64| LightChange { light, color: crossing.contact.color() };
        match self.sensors.get(&crossing.sensor) {
            None => {
                assert(changes@ =~= old(changes)@ + self@.changes_of(crossing));
            },
            Some(children) => {
                assert(self@.sensors[crossing.sensor] == children@);
                let mut j: usize = 0;
                while j < children.len()
                    invariant
                        j <= children.len(),
                        color == crossing.contact.color(),
                        lit == |child: u64| self@.lights.contains(child),
                        order == |light: u64| (LightChange { light, color: crossing.contact.color() }),
                        changes@ == old(changes)@ + children@.take(j as int).filter(lit).map_values(
                            order,
                        ),
                    decreases children.len() - j,
                {
                    let child = children[j];
                    let ghost head = children@.take(j as int);
                    proof {
                        assert(children@.take(j + 1) =~= head.push(child));
                        head.lemma_filter_push(child, lit);
                    }
                    if self.lights.contains(&child) {
                        changes.push(LightChange { light: child, color });
                        assert(head.filter(lit).push(child).map_values(order) =~= head.filter(
                            lit,
                        ).map_values(order).push(order(child)));
                    }
                    j += 1;
                }
                assert(children@.take(j as int) =~= children@);
            },
        }
    }

    /// Derives the colour changes that a run of crossings calls for.
    pub fn light_changes(&self, crossings: &Vec<Crossing>) -> (changes: Vec<LightChange>)
        ensures
            changes@ == self@.changes(crossings@),
    {
        let mut changes: Vec<LightChange> = Vec::new();
        let ghost per = |x: Crossing| self@.changes_of(x);
        let mut i: usize = 0;
        while i < crossings.len()
            invariant
                i <= crossings.len(),
                per == |x: Crossing| self@.changes_of(x),
                changes@ == crossings@.take(i as int).map_values(per).flatten(),
            decreases crossings.len() - i,
        {
            let x = crossings[i];
            self.push_changes_of(x, &mut changes);
            proof {
                let head = crossings@.take(i as int);
                assert(crossings@.take(i + 1) =~= head.push(x));
                assert(head.push(x).map_values(per) =~= head.map_values(per).push(per(x)));
                head.map_values(per).lemma_flatten_push(per(x));
            }
            i += 1;
        }
        assert(crossings@.take(i as int) =~= crossings@);
        changes
    }
}

/// Reads one frame's collisions: finds the crossings of a player into or
/// out of a sensor area, the started collisions before the ended ones, and
/// derives the colour changes for the lights of the sensors crossed.
pub fn sensor_detection(scene: &Scene, started: &Vec<Collision>, ended: &Vec<Collision>) -> (outcome:
    Outcome)
    ensures
        outcome.crossings@ == scene@.frame_crossings(started@, ended@),
        outcome.changes@ == scene@.changes(outcome.crossings@),
{
    let mut crossings = scene.detect_crossings(Contact::Started, started);
    let mut left = scene.detect_crossings(Contact::Ended, ended);
    crossings.append(&mut left);
    let changes = scene.light_changes(&crossings);
    Outcome { crossings, changes }
}

} // verus!
