//! What a frame does to each light: the colour it is left with once the
//! frame's colour changes have been applied in order.

use crate::sensor::{Collision, Contact, Crossing, LightChange, LightColor, SceneView};
use vstd::prelude::*;
use vstd::seq_lib::lemma_flatten_concat;

verus! {

/// The colour that `changes`, applied in order, leave a light with: that of
/// the last change addressed to it, and `None` where none is, so that the
/// light keeps whatever colour it had.
pub open spec fn last_change(changes: Seq<LightChange>, light: u64) -> Option<LightColor>
    decreases changes.len(),
{
    if changes.len() == 0 {
        None
    } else if changes.last().light == light {
        Some(changes.last().color)
    } else {
        last_change(changes.drop_last(), light)
    }
}

impl SceneView {
    /// A crossing of `sensor` reaches `light` when the light is one of the
    /// sensor's children.
    pub open spec fn reaches(self, sensor: u64, light: u64) -> bool {
        &&& self.sensors.contains_key(sensor)
        &&& self.sensors[sensor].contains(light)
        &&& self.lights.contains(light)
    }

    /// A collision touches a light when, read one way or the other, it is a
    /// crossing of a sensor that reaches the light.
    pub open spec fn touches(self, collision: Collision, light: u64) -> bool {
        ||| self.is_crossing(collision.first, collision.second) && self.reaches(
            collision.second,
            light,
        )
        ||| self.is_crossing(collision.second, collision.first) && self.reaches(
            collision.first,
            light,
        )
    }

    /// Some collision of the run touches the light.
    pub open spec fn touched_by(self, collisions: Seq<Collision>, light: u64) -> bool {
        exists|i: int| 0 <= i < collisions.len() && self.touches(#[trigger] collisions[i], light)
    }
}

proof fn lemma_last_change_concat(a: Seq<LightChange>, b: Seq<LightChange>, light: u64)
    ensures
        last_change(a + b, light) == match last_change(b, light) {
            Some(color) => Some(color),
            None => last_change(a, light),
        },
    decreases b.len(),
{
    if b.len() == 0 {
        assert(a + b =~= a);
    } else {
        assert((a + b).last() == b.last());
        assert((a + b).drop_last() =~= a + b.drop_last());
        if b.last().light != light {
            lemma_last_change_concat(a, b.drop_last(), light);
        }
    }
}

proof fn lemma_last_change_uniform(changes: Seq<LightChange>, color: LightColor, light: u64)
    requires
        forall|i: int| 0 <= i < changes.len() ==> (#[trigger] changes[i]).color == color,
    ensures
        last_change(changes, light) == if exists|i: int|
            0 <= i < changes.len() && (#[trigger] changes[i]).light == light {
            Some(color)
        } else {
            None
        },
    decreases changes.len(),
{
    if changes.len() > 0 {
        let head = changes.drop_last();
        if changes.last().light == light {
            assert(changes[changes.len() - 1].light == light);
        } else {
            lemma_last_change_uniform(head, color, light);
            if exists|i: int| 0 <= i < head.len() && (#[trigger] head[i]).light == light {
                let i = choose|i: int| 0 <= i < head.len() && (#[trigger] head[i]).light == light;
                assert(changes[i].light == light);
            }
            if exists|i: int| 0 <= i < changes.len() && (#[trigger] changes[i]).light == light {
                let i = choose|i: int|
                    0 <= i < changes.len() && (#[trigger] changes[i]).light == light;
                assert(head[i].light == light);
            }
        }
    }
}

proof fn lemma_lit_children(scene: SceneView, sensor: u64, light: u64)
    ensures
        scene.lit_children(sensor).contains(light) <==> scene.reaches(sensor, light),
{
    if scene.sensors.contains_key(sensor) {
        let children = scene.sensors[sensor];
        let lit = |child: u64| scene.lights.contains(child);
        if children.filter(lit).contains(light) {
            children.lemma_filter_contains_rev(lit, light);
            let i = choose|i: int|
                0 <= i < children.filter(lit).len() && children.filter(lit)[i] == light;
            children.lemma_filter_pred(lit, i);
        }
        if scene.reaches(sensor, light) {
            let i = choose|i: int| 0 <= i < children.len() && children[i] == light;
            children.lemma_filter_contains(lit, i);
        }
    }
}

proof fn lemma_changes_of(scene: SceneView, crossing: Crossing, light: u64)
    ensures
        last_change(scene.changes_of(crossing), light) == if scene.reaches(crossing.sensor, light) {
            Some(crossing.contact.color())
        } else {
            None
        },
{
    let lit = scene.lit_children(crossing.sensor);
    let changes = scene.changes_of(crossing);
    lemma_lit_children(scene, crossing.sensor, light);
    lemma_last_change_uniform(changes, crossing.contact.color(), light);
    if lit.contains(light) {
        let i = choose|i: int| 0 <= i < lit.len() && lit[i] == light;
        assert(changes[i].light == light);
    }
    if exists|i: int| 0 <= i < changes.len() && (#[trigger] changes[i]).light == light {
        let i = choose|i: int| 0 <= i < changes.len() && (#[trigger] changes[i]).light == light;
        assert(lit[i] == light);
    }
}

proof fn lemma_changes_concat(scene: SceneView, a: Seq<Crossing>, b: Seq<Crossing>)
    ensures
        scene.changes(a + b) == scene.changes(a) + scene.changes(b),
{
    let per = |x: Crossing| scene.changes_of(x);
    assert((a + b).map_values(per) =~= a.map_values(per) + b.map_values(per));
    lemma_flatten_concat(a.map_values(per), b.map_values(per));
}

proof fn lemma_changes_one(scene: SceneView, crossing: Crossing)
    ensures
        scene.changes(seq![crossing]) == scene.changes_of(crossing),
        scene.changes(Seq::empty()) == Seq::<LightChange>::empty(),
{
    let per = |x: Crossing| scene.changes_of(x);
    let none = Seq::<Seq<LightChange>>::empty();
    assert(seq![crossing].map_values(per) =~= none.push(per(crossing)));
    none.lemma_flatten_push(per(crossing));
    assert(Seq::<Crossing>::empty().map_values(per) =~= none);
    assert(none.flatten() =~= Seq::<LightChange>::empty());
    assert(none.flatten() + per(crossing) =~= per(crossing));
}

proof fn lemma_collision_color(scene: SceneView, contact: Contact, collision: Collision, light: u64)
    ensures
        last_change(scene.changes(scene.crossings_of(contact, collision)), light) == if scene.touches(
            collision,
            light,
        ) {
            Some(contact.color())
        } else {
            None
        },
{
    let forth = Crossing { contact, player: collision.first, sensor: collision.second };
    let back = Crossing { contact, player: collision.second, sensor: collision.first };
    let a = scene.crossing(contact, collision.first, collision.second);
    let b = scene.crossing(contact, collision.second, collision.first);
    lemma_changes_concat(scene, a, b);
    lemma_changes_one(scene, forth);
    lemma_changes_one(scene, back);
    lemma_changes_of(scene, forth, light);
    lemma_changes_of(scene, back, light);
    lemma_last_change_concat(scene.changes(a), scene.changes(b), light);
}

proof fn lemma_crossings_push(
    scene: SceneView,
    contact: Contact,
    collisions: Seq<Collision>,
    collision: Collision,
)
    ensures
        scene.crossings(contact, collisions.push(collision)) == scene.crossings(contact, collisions)
            + scene.crossings_of(contact, collision),
{
    let per = |c: Collision| scene.crossings_of(contact, c);
    assert(collisions.push(collision).map_values(per) =~= collisions.map_values(per).push(
        per(collision),
    ));
    collisions.map_values(per).lemma_flatten_push(per(collision));
}

proof fn lemma_run_color(scene: SceneView, contact: Contact, collisions: Seq<Collision>, light: u64)
    ensures
        last_change(scene.changes(scene.crossings(contact, collisions)), light) == if scene.touched_by(
            collisions,
            light,
        ) {
            Some(contact.color())
        } else {
            None
        },
    decreases collisions.len(),
{
    if collisions.len() == 0 {
        let per = |c: Collision| scene.crossings_of(contact, c);
        assert(collisions.map_values(per) =~= Seq::<Seq<Crossing>>::empty());
        assert(scene.crossings(contact, collisions) =~= Seq::<Crossing>::empty());
        lemma_changes_one(scene, Crossing { contact, player: 0, sensor: 0 });
    } else {
        let head = collisions.drop_last();
        let last = collisions.last();
        assert(collisions =~= head.push(last));
        lemma_crossings_push(scene, contact, head, last);
        lemma_changes_concat(
            scene,
            scene.crossings(contact, head),
            scene.crossings_of(contact, last),
        );
        lemma_collision_color(scene, contact, last, light);
        lemma_last_change_concat(
            scene.changes(scene.crossings(contact, head)),
            scene.changes(scene.crossings_of(contact, last)),
            light,
        );
        lemma_run_color(scene, contact, head, light);
        if scene.touches(last, light) {
            assert(scene.touches(collisions[collisions.len() - 1], light));
        } else {
            if scene.touched_by(head, light) {
                let i = choose|i: int|
                    0 <= i < head.len() && scene.touches(#[trigger] head[i], light);
                assert(scene.touches(collisions[i], light));
            }
            if scene.touched_by(collisions, light) {
                let i = choose|i: int|
                    0 <= i < collisions.len() && scene.touches(#[trigger] collisions[i], light);
                assert(scene.touches(head[i], light));
            }
        }
    }
}

/// What a frame does to a light. If an ended collision touches it, the
/// light is left red; otherwise, if a started collision touches it, green;
/// otherwise no change is addressed to it. The ended collisions win
/// because they are read last, and the order of the two entities within a
/// collision plays no part.
pub proof fn lemma_frame_color(
    scene: SceneView,
    started: Seq<Collision>,
    ended: Seq<Collision>,
    light: u64,
)
    ensures
        last_change(scene.changes(scene.frame_crossings(started, ended)), light) == if scene.touched_by(
            ended,
            light,
        ) {
            Some(LightColor::Red)
        } else if scene.touched_by(started, light) {
            Some(LightColor::Green)
        } else {
            None
        },
{
    let entered = scene.crossings(Contact::Started, started);
    let left = scene.crossings(Contact::Ended, ended);
    lemma_changes_concat(scene, entered, left);
    lemma_last_change_concat(scene.changes(entered), scene.changes(left), light);
    lemma_run_color(scene, Contact::Started, started, light);
    lemma_run_color(scene, Contact::Ended, ended, light);
}

/// Entering a sensor volume turns its lights green: where a started
/// collision pairs a player with a sensor area, in either order, and no
/// ended collision of the frame touches the light, every lit child of that
/// sensor is left green.
pub proof fn lemma_entering_turns_green(
    scene: SceneView,
    started: Seq<Collision>,
    ended: Seq<Collision>,
    player: u64,
    sensor: u64,
    light: u64,
)
    requires
        scene.is_crossing(player, sensor),
        scene.reaches(sensor, light),
        started.contains(Collision { first: player, second: sensor }) || started.contains(
            Collision { first: sensor, second: player },
        ),
        !scene.touched_by(ended, light),
    ensures
        last_change(scene.changes(scene.frame_crossings(started, ended)), light) == Some(
            LightColor::Green,
        ),
{
    lemma_frame_color(scene, started, ended, light);
    let c = if started.contains(Collision { first: player, second: sensor }) {
        Collision { first: player, second: sensor }
    } else {
        Collision { first: sensor, second: player }
    };
    let i = choose|i: int| 0 <= i < started.len() && started[i] == c;
    assert(scene.touches(started[i], light));
}

/// Leaving a sensor volume turns its lights red: where an ended collision
/// pairs a player with a sensor area, in either order, every lit child of
/// that sensor is left red, whatever else the frame holds.
pub proof fn lemma_leaving_turns_red(
    scene: SceneView,
    started: Seq<Collision>,
    ended: Seq<Collision>,
    player: u64,
    sensor: u64,
    light: u64,
)
    requires
        scene.is_crossing(player, sensor),
        scene.reaches(sensor, light),
        ended.contains(Collision { first: player, second: sensor }) || ended.contains(
            Collision { first: sensor, second: player },
        ),
    ensures
        last_change(scene.changes(scene.frame_crossings(started, ended)), light) == Some(
            LightColor::Red,
        ),
{
    lemma_frame_color(scene, started, ended, light);
    let c = if ended.contains(Collision { first: player, second: sensor }) {
        Collision { first: player, second: sensor }
    } else {
        Collision { first: sensor, second: player }
    };
    let i = choose|i: int| 0 <= i < ended.len() && ended[i] == c;
    assert(scene.touches(ended[i], light));
}

} // verus!
