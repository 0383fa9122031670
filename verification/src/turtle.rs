//! The robot controller: translating operator operations into wire
//! commands and folding the robot's replies back into pose and world.
//!
//! The socket exchanges themselves happen at the transport; what the
//! replies mean — how a confirmed move shifts the pose, how an
//! inspection updates the world and what change it reports, what a dig
//! removes, how an inventory reply is read — is decided here.

use vstd::prelude::*;
use vstd::string::StringExecFns;
use crate::api::{
    DestroyBlockResponse, JsonTurtle, TurtleDestroyBlockError, TurtleGetInventoryError,
    TurtleMoveError, TurtleWorldScanError, WorldChange, WorldChangeAction, WorldChangeDeleteBlock,
    WorldChangeNewBlock, WorldChangeUpdateBlock,
};
use crate::color::{block_color, block_to_rgb, spec_block_color, spec_block_rgb};
use crate::direction::{spec_move_diff, spec_rotate, JsonTurtleDirection};
use crate::strutil::str_eq;
use crate::world::{
    global_y_in_range, palette_view, spec_intern, spec_intern_index, spec_name_of, TurtleWorld,
    TurtleWorldError,
};

verus! {

/// The name field a JSON object reply carries, if the reply is such an
/// object.
pub uninterp spec fn block_name_of(s: Seq<char>) -> Option<Seq<char>>;

/// Relies on serde_json::from_str::<Value>, with Value::get and
/// Value::as_str picking the field out: the "name" string of a JSON
/// object, a function of the input text alone.
#[verifier::external_body]
fn json_name_field(s: &str) -> (r: Option<String>)
    ensures
        r is Some <==> block_name_of(s@) is Some,
        r is Some ==> Some(r->0@) == block_name_of(s@),
{
    serde_json::from_str::<serde_json::Value>(s).ok().as_ref().and_then(|v| v.get("name")).and_then(
        |n| n.as_str(),
    ).map(|n| n.to_owned())
}

/// The wire command that performs a movement intent.
pub open spec fn spec_move_command(direction: JsonTurtleDirection) -> Seq<char> {
    match direction {
        JsonTurtleDirection::Forward => "local a, b = turtle.forward() return a"@,
        JsonTurtleDirection::Backward => "local a, b = turtle.back() return a"@,
        JsonTurtleDirection::Right => "local a, b = turtle.turnRight() return a"@,
        JsonTurtleDirection::Left => "local a, b = turtle.turnLeft() return a"@,
    }
}

/// The wire command for a movement intent.
pub fn move_command(direction: &JsonTurtleDirection) -> (r: String)
    ensures
        r@ == spec_move_command(*direction),
{
    match direction {
        JsonTurtleDirection::Forward => "local a, b = turtle.forward() return a".to_owned(),
        JsonTurtleDirection::Backward => "local a, b = turtle.back() return a".to_owned(),
        JsonTurtleDirection::Right => "local a, b = turtle.turnRight() return a".to_owned(),
        JsonTurtleDirection::Left => "local a, b = turtle.turnLeft() return a".to_owned(),
    }
}

/// The three inspection commands, in scan order.
pub fn inspect_down_payload() -> (r: String)
    ensures
        r@ == "local has_block, data = turtle.inspectDown() return textutils.serialiseJSON(data)"@,
{
    "local has_block, data = turtle.inspectDown() return textutils.serialiseJSON(data)".to_owned()
}

pub fn inspect_forward_payload() -> (r: String)
    ensures
        r@ == "local has_block, data = turtle.inspect() return textutils.serialiseJSON(data)"@,
{
    "local has_block, data = turtle.inspect() return textutils.serialiseJSON(data)".to_owned()
}

pub fn inspect_up_payload() -> (r: String)
    ensures
        r@ == "local has_block, data = turtle.inspectUp() return textutils.serialiseJSON(data)"@,
{
    "local has_block, data = turtle.inspectUp() return textutils.serialiseJSON(data)".to_owned()
}

/// The wire command that digs the block ahead.
pub fn destroy_block_payload() -> (r: String)
    ensures
        r@ == "return turtle.dig()"@,
{
    "return turtle.dig()".to_owned()
}

/// Fold a movement reply into the pose: "true" rotates or translates
/// it, "false" refuses with `CannotMove`, anything else is a protocol
/// error; a step that would leave the coordinate range is refused with
/// `PoseOverflow`. The pose changes exactly on success.
pub fn apply_move_reply(pose: &mut JsonTurtle, direction: &JsonTurtleDirection, reply: &str) -> (r:
    Result<(), TurtleMoveError>)
    ensures
        ({
            let ok = reply@ == "true"@;
            let rotational = *direction == JsonTurtleDirection::Right || *direction
                == JsonTurtleDirection::Left;
            &&& (ok && rotational) ==> r is Ok && *final(pose) == (JsonTurtle {
                rotation: spec_rotate(old(pose).rotation, *direction),
                ..*old(pose)
            })
            &&& (ok && !rotational) ==> {
                let (dx, dy, dz) = spec_move_diff(*direction, old(pose).rotation);
                let in_range = i32::MIN <= old(pose).x + dx <= i32::MAX && i32::MIN <= old(pose).y
                    + dy <= i32::MAX && i32::MIN <= old(pose).z + dz <= i32::MAX;
                &&& in_range ==> r is Ok && *final(pose) == (JsonTurtle {
                    x: (old(pose).x + dx) as i32,
                    y: (old(pose).y + dy) as i32,
                    z: (old(pose).z + dz) as i32,
                    ..*old(pose)
                })
                &&& !in_range ==> r == Err::<(), TurtleMoveError>(TurtleMoveError::PoseOverflow)
                    && *final(pose) == *old(pose)
            }
            &&& (!ok && reply@ == "false"@) ==> r == Err::<(), TurtleMoveError>(
                TurtleMoveError::CannotMove,
            ) && *final(pose) == *old(pose)
            &&& (!ok && reply@ != "false"@) ==> (r matches Err(
                TurtleMoveError::InvalidTurtleResponse(t),
            ) && t@ == reply@) && *final(pose) == *old(pose)
        }),
{
    if str_eq(reply, "true") {
        match direction {
            JsonTurtleDirection::Right | JsonTurtleDirection::Left => {
                pose.rotation.rotate_self(direction);
                Ok(())
            },
            _ => {
                let (dx, dy, dz) = direction.to_turtle_move_diff(&pose.rotation);
                let nx = pose.x.checked_add(dx);
                let ny = pose.y.checked_add(dy);
                let nz = pose.z.checked_add(dz);
                if nx.is_none() || ny.is_none() || nz.is_none() {
                    return Err(TurtleMoveError::PoseOverflow);
                }
                pose.x = nx.unwrap();
                pose.y = ny.unwrap();
                pose.z = nz.unwrap();
                Ok(())
            },
        }
    } else if str_eq(reply, "false") {
        Err(TurtleMoveError::CannotMove)
    } else {
        Err(TurtleMoveError::InvalidTurtleResponse(reply.to_owned()))
    }
}


/// The literal reply a robot gives when a cell holds no block: the JSON
/// string, double quotes included.
pub open spec fn spec_no_block_literal() -> Seq<char> {
    "\"No block to inspect\""@
}

/// Neither palette nor chunks changed.
pub open spec fn world_unchanged(pre: TurtleWorld, post: TurtleWorld) -> bool {
    post.pallete.palette@ == pre.pallete.palette@ && post.data.chunks@ == pre.data.chunks@
}

/// All global cells but (x, y, z) read the same.
pub open spec fn world_frame_except(pre: TurtleWorld, post: TurtleWorld, x: i32, y: i32, z: i32) -> bool {
    forall|a: i32, b: i32, c: i32|
        (a, b, c) != (x, y, z) ==> post.data.global_voxel(a, b, c) == pre.data.global_voxel(a, b, c)
}

/// What one inspection reply does to the world and reports back, given
/// the state before it. The observed cell is (x, y, z); `reply` is the
/// robot's text. A "no block" reply erases a non-empty cell and reports
/// a deletion; a block reply interns the name and, against the cell's
/// previous content, reports nothing, an update, or a new block, with
/// the color derived from the name.
pub open spec fn scan_obs_post(
    pre: TurtleWorld,
    post: TurtleWorld,
    x: i32,
    y: i32,
    z: i32,
    reply: Seq<char>,
    r: Result<Option<WorldChange>, TurtleWorldScanError>,
) -> bool {
    let oldid = pre.data.global_voxel(x, y, z);
    let pv = palette_view(pre.pallete);
    if !global_y_in_range(y) {
        r == Err::<Option<WorldChange>, TurtleWorldScanError>(
            TurtleWorldScanError::WorldError(TurtleWorldError::YRangeError),
        ) && world_unchanged(pre, post)
    } else if reply == spec_no_block_literal() {
        if oldid == 0 {
            r == Ok::<Option<WorldChange>, TurtleWorldScanError>(None) && world_unchanged(pre, post)
        } else {
            &&& (r matches Ok(Some(ch)) && ch.x == x && ch.y == y && ch.z == z
                && ch.action is Delete)
            &&& post.pallete.palette@ == pre.pallete.palette@
            &&& post.data.global_voxel(x, y, z) == 0
            &&& world_frame_except(pre, post, x, y, z)
        }
    } else {
        match block_name_of(reply) {
            None => r == Err::<Option<WorldChange>, TurtleWorldScanError>(
                TurtleWorldScanError::JsonError,
            ) && world_unchanged(pre, post),
            Some(name) => {
                if oldid != 0 && spec_name_of(pv, oldid as int) is None {
                    (r matches Err(TurtleWorldScanError::CorruptedWorld(_))) && world_unchanged(
                        pre,
                        post,
                    )
                } else if oldid != 0 && spec_name_of(pv, oldid as int) == Some(name) {
                    r == Ok::<Option<WorldChange>, TurtleWorldScanError>(None) && world_unchanged(
                        pre,
                        post,
                    )
                } else {
                    let idx = spec_intern_index(pv, name);
                    if idx > 65535 {
                        &&& r == Err::<Option<WorldChange>, TurtleWorldScanError>(
                            TurtleWorldScanError::IntError,
                        )
                        &&& palette_view(post.pallete) == spec_intern(pv, name)
                        &&& post.data.chunks@ == pre.data.chunks@
                    } else {
                        &&& palette_view(post.pallete) == spec_intern(pv, name)
                        &&& post.data.global_voxel(x, y, z) == idx
                        &&& world_frame_except(pre, post, x, y, z)
                        &&& if oldid == 0 {
                            r matches Ok(Some(ch)) && ch.x == x && ch.y == y && ch.z == z && (
                            ch.action matches WorldChangeAction::New(nb) && (nb.r, nb.g, nb.b)
                                == spec_block_rgb(name))
                        } else {
                            r matches Ok(Some(ch)) && ch.x == x && ch.y == y && ch.z == z && (
                            ch.action matches WorldChangeAction::Update(ub) && ub.color@
                                == spec_block_color(name))
                        }
                    }
                }
            },
        }
    }
}

/// Fold one inspection reply into the world; see [`scan_obs_post`].
pub fn scan_apply_observation(
    world: &mut TurtleWorld,
    x: i32,
    y: i32,
    z: i32,
    reply: &str,
) -> (r: Result<Option<WorldChange>, TurtleWorldScanError>)
    requires
        old(world).wf(),
    ensures
        final(world).wf(),
        scan_obs_post(*old(world), *final(world), x, y, z, reply@, r),
{
    let cy = y >> 4;
    if cy < -128 || cy > 127 {
        return Err(TurtleWorldScanError::WorldError(TurtleWorldError::YRangeError));
    }
    let oldid = world.data.get_global_voxel(x, y, z);
    if str_eq(reply, "\"No block to inspect\"") {
        if oldid == 0 {
            return Ok(None);
        }
        let res = world.data.remove_global_block_by_xyz(x, y, z);
        proof {
            assert(res is Ok);
        }
        return Ok(
            Some(WorldChange { x, y, z, action: WorldChangeAction::Delete(WorldChangeDeleteBlock()) }),
        );
    }
    let name = match json_name_field(reply) {
        None => {
            return Err(TurtleWorldScanError::JsonError);
        },
        Some(n) => n,
    };
    if oldid != 0 {
        let db_name = match world.pallete.get_pallete_from_id(oldid) {
            None => {
                return Err(
                    TurtleWorldScanError::CorruptedWorld(
                        "palette holds no entry for a stored voxel id".to_owned(),
                    ),
                );
            },
            Some(n) => n,
        };
        if str_eq(name.as_str(), db_name.as_str()) {
            return Ok(None);
        }
    }
    let idx = world.pallete.get_pallete_index(name.as_str());
    if idx > 65535 {
        return Err(TurtleWorldScanError::IntError);
    }
    let pid = idx as u16;
    let res = world.data.set_global_voxel(x, y, z, pid);
    proof {
        assert(res is Ok);
    }
    if oldid == 0 {
        let (cr, cg, cb) = block_to_rgb(name.as_str());
        Ok(
            Some(
                WorldChange {
                    x,
                    y,
                    z,
                    action: WorldChangeAction::New(WorldChangeNewBlock { r: cr, g: cg, b: cb }),
                },
            ),
        )
    } else {
        let color = block_color(name.as_str());
        Ok(
            Some(
                WorldChange {
                    x,
                    y,
                    z,
                    action: WorldChangeAction::Update(WorldChangeUpdateBlock { color }),
                },
            ),
        )
    }
}


/// The changes one observation reports, as a sequence.
pub open spec fn opt_changes(r: Result<Option<WorldChange>, TurtleWorldScanError>) -> Seq<
    WorldChange,
> {
    match r {
        Ok(Some(c)) => seq![c],
        _ => Seq::empty(),
    }
}

/// The intermediate states and per-observation outcomes of one scan,
/// reported alongside its result so the contract can name them.
pub struct ScanTrace {
    pub w1: TurtleWorld,
    pub w2: TurtleWorld,
    pub r0: Result<Option<WorldChange>, TurtleWorldScanError>,
    pub r1: Result<Option<WorldChange>, TurtleWorldScanError>,
    pub r2: Result<Option<WorldChange>, TurtleWorldScanError>,
}

/// What a whole scan does: the three observations — below the robot,
/// ahead of it, above it — applied in that order, each by
/// [`scan_obs_post`]; the reported changes concatenated in scan order;
/// the first failing observation aborts the scan, later cells and the
/// world beyond the applied steps untouched.
pub open spec fn scan_three_post(
    pre: TurtleWorld,
    post: TurtleWorld,
    pose: JsonTurtle,
    rep0: Seq<char>,
    rep1: Seq<char>,
    rep2: Seq<char>,
    tr: ScanTrace,
    r: Result<Seq<WorldChange>, TurtleWorldScanError>,
) -> bool {
    let (dx, dy, dz) = spec_move_diff(JsonTurtleDirection::Forward, pose.rotation);
    &&& scan_obs_post(pre, tr.w1, pose.x, (pose.y - 1) as i32, pose.z, rep0, tr.r0)
    &&& tr.r0 is Err ==> r == Err::<Seq<WorldChange>, TurtleWorldScanError>(tr.r0->Err_0)
        && world_unchanged(tr.w1, post)
    &&& tr.r0 is Ok ==> scan_obs_post(
        tr.w1,
        tr.w2,
        (pose.x + dx) as i32,
        (pose.y + dy) as i32,
        (pose.z + dz) as i32,
        rep1,
        tr.r1,
    )
    &&& tr.r0 is Ok && tr.r1 is Err ==> r == Err::<Seq<WorldChange>, TurtleWorldScanError>(
        tr.r1->Err_0,
    ) && world_unchanged(tr.w2, post)
    &&& tr.r0 is Ok && tr.r1 is Ok ==> scan_obs_post(
        tr.w2,
        post,
        pose.x,
        (pose.y + 1) as i32,
        pose.z,
        rep2,
        tr.r2,
    )
    &&& tr.r0 is Ok && tr.r1 is Ok && tr.r2 is Err ==> r == Err::<
        Seq<WorldChange>,
        TurtleWorldScanError,
    >(tr.r2->Err_0)
    &&& tr.r0 is Ok && tr.r1 is Ok && tr.r2 is Ok ==> r == Ok::<
        Seq<WorldChange>,
        TurtleWorldScanError,
    >(opt_changes(tr.r0) + opt_changes(tr.r1) + opt_changes(tr.r2))
}

/// Fold the three inspection replies of one scan into the world,
/// returning the changes in scan order together with the trace that
/// [`scan_three_post`] speaks of. The caller persists the world
/// afterwards exactly when changes came back.
pub fn scan_world_changes_from_replies(
    world: &mut TurtleWorld,
    pose: &JsonTurtle,
    replies: &Vec<String>,
) -> (res: (Result<Vec<WorldChange>, TurtleWorldScanError>, Ghost<ScanTrace>))
    requires
        old(world).wf(),
        replies@.len() == 3,
        i32::MIN < pose.x < i32::MAX,
        i32::MIN < pose.y < i32::MAX,
        i32::MIN < pose.z < i32::MAX,
    ensures
        final(world).wf(),
        scan_three_post(
            *old(world),
            *final(world),
            *pose,
            replies@[0]@,
            replies@[1]@,
            replies@[2]@,
            res.1@,
            match res.0 {
                Ok(v) => Ok(v@),
                Err(e) => Err(e),
            },
        ),
{
    let mut changes: Vec<WorldChange> = Vec::new();

    let res0 = scan_apply_observation(world, pose.x, pose.y - 1, pose.z, replies[0].as_str());
    let ghost w1 = *world;
    let ghost gr0 = res0;
    match res0 {
        Err(e) => {
            let ghost tr = ScanTrace { w1, w2: w1, r0: gr0, r1: gr0, r2: gr0 };
            return (Err(e), Ghost(tr));
        },
        Ok(Some(c)) => {
            changes.push(c);
        },
        Ok(None) => {},
    }

    let (dx, dy, dz) = JsonTurtleDirection::Forward.to_turtle_move_diff(&pose.rotation);
    let res1 = scan_apply_observation(
        world,
        pose.x + dx,
        pose.y + dy,
        pose.z + dz,
        replies[1].as_str(),
    );
    let ghost w2 = *world;
    let ghost gr1 = res1;
    match res1 {
        Err(e) => {
            let ghost tr = ScanTrace { w1, w2, r0: gr0, r1: gr1, r2: gr1 };
            return (Err(e), Ghost(tr));
        },
        Ok(Some(c)) => {
            changes.push(c);
        },
        Ok(None) => {},
    }

    let res2 = scan_apply_observation(world, pose.x, pose.y + 1, pose.z, replies[2].as_str());
    let ghost gr2 = res2;
    match res2 {
        Err(e) => {
            let ghost tr = ScanTrace { w1, w2, r0: gr0, r1: gr1, r2: gr2 };
            return (Err(e), Ghost(tr));
        },
        Ok(Some(c)) => {
            changes.push(c);
        },
        Ok(None) => {},
    }
    let ghost tr = ScanTrace { w1, w2, r0: gr0, r1: gr1, r2: gr2 };
    proof {
        assert(changes@ =~= opt_changes(gr0) + opt_changes(gr1) + opt_changes(gr2));
    }
    (Ok(changes), Ghost(tr))
}


/// The wire command for a dig, or `NotImplemented` for any side but
/// forward.
pub fn destroy_command_for_side(side: &JsonTurtleDirection) -> (r: Result<
    String,
    TurtleDestroyBlockError,
>)
    ensures
        *side == JsonTurtleDirection::Forward ==> r is Ok && r->Ok_0@ == "return turtle.dig()"@,
        *side != JsonTurtleDirection::Forward ==> r == Err::<String, TurtleDestroyBlockError>(
            TurtleDestroyBlockError::NotImplemented,
        ),
{
    match side {
        JsonTurtleDirection::Forward => Ok(destroy_block_payload()),
        _ => Err(TurtleDestroyBlockError::NotImplemented),
    }
}

/// Fold a dig reply into the world. "true" clears the cell ahead of the
/// robot — creating its chunk if absent is a harmless no-op — and
/// reports the deletion; "false" reports no change; anything else is a
/// protocol error. The world changes exactly in the confirmed case.
pub fn apply_destroy_reply(
    world: &mut TurtleWorld,
    pose: &JsonTurtle,
    side: &JsonTurtleDirection,
    reply: &str,
) -> (r: Result<DestroyBlockResponse, TurtleDestroyBlockError>)
    requires
        old(world).wf(),
        *side == JsonTurtleDirection::Forward,
        i32::MIN < pose.x < i32::MAX,
        i32::MIN < pose.z < i32::MAX,
    ensures
        final(world).wf(),
        ({
            let (dx, dy, dz) = spec_move_diff(JsonTurtleDirection::Forward, pose.rotation);
            let tx = (pose.x + dx) as i32;
            let ty = pose.y;
            let tz = (pose.z + dz) as i32;
            if reply@ == "true"@ {
                if !global_y_in_range(ty) {
                    r == Err::<DestroyBlockResponse, TurtleDestroyBlockError>(
                        TurtleDestroyBlockError::WorldError(TurtleWorldError::YRangeError),
                    ) && world_unchanged(*old(world), *final(world))
                } else {
                    &&& (r matches Ok(resp) && (resp.change matches Some(ch) && ch.x == tx && ch.y
                        == ty && ch.z == tz && ch.action is Delete))
                    &&& final(world).pallete.palette@ == old(world).pallete.palette@
                    &&& final(world).data.global_voxel(tx, ty, tz) == 0
                    &&& world_frame_except(*old(world), *final(world), tx, ty, tz)
                }
            } else if reply@ == "false"@ {
                (r matches Ok(resp) && resp.change is None) && world_unchanged(
                    *old(world),
                    *final(world),
                )
            } else {
                (r matches Err(TurtleDestroyBlockError::UnexpectedResponse(t)) && t@ == reply@)
                    && world_unchanged(*old(world), *final(world))
            }
        }),
{
    if str_eq(reply, "true") {
        let (dx, dy, dz) = JsonTurtleDirection::Forward.to_turtle_move_diff(&pose.rotation);
        let tx = pose.x + dx;
        let ty = pose.y;
        let tz = pose.z + dz;
        let cy = ty >> 4;
        if cy < -128 || cy > 127 {
            return Err(TurtleDestroyBlockError::WorldError(TurtleWorldError::YRangeError));
        }
        let res = world.data.set_global_voxel(tx, ty, tz, 0);
        proof {
            assert(res is Ok);
        }
        Ok(
            DestroyBlockResponse {
                change: Some(
                    WorldChange {
                        x: tx,
                        y: ty,
                        z: tz,
                        action: WorldChangeAction::Delete(WorldChangeDeleteBlock()),
                    },
                ),
            },
        )
    } else if str_eq(reply, "false") {
        Ok(DestroyBlockResponse { change: None })
    } else {
        Err(TurtleDestroyBlockError::UnexpectedResponse(reply.to_owned()))
    }
}

/// Index of the first ':' in a name; the length when none occurs.
pub open spec fn spec_first_colon(s: Seq<char>) -> int
    decreases s.len(),
{
    if s.len() == 0 {
        0
    } else if s[0] == ':' {
        0
    } else {
        1 + spec_first_colon(s.drop_first())
    }
}

/// `spec_first_colon` returns the position of the first colon.
pub proof fn lemma_first_colon_found(s: Seq<char>, i: int)
    requires
        0 <= i < s.len(),
        s[i] == ':',
        forall|j: int| 0 <= j < i ==> s[j] != ':',
    ensures
        spec_first_colon(s) == i,
    decreases i,
{
    if i > 0 {
        lemma_first_colon_found(s.drop_first(), i - 1);
    }
}

/// `spec_first_colon` returns the length when no colon occurs.
pub proof fn lemma_first_colon_absent(s: Seq<char>)
    requires
        forall|j: int| 0 <= j < s.len() ==> s[j] != ':',
    ensures
        spec_first_colon(s) == s.len(),
    decreases s.len(),
{
    if s.len() > 0 {
        assert forall|j: int| 0 <= j < s.drop_first().len() implies s.drop_first()[j] != ':' by {
            assert(s.drop_first()[j] == s[j + 1]);
        }
        lemma_first_colon_absent(s.drop_first());
    }
}

/// How one inventory slot reply is read: a literal "nil" is an empty
/// slot; otherwise the reply must be a JSON object with a name, and the
/// item keeps what follows the name's first ':'.
pub open spec fn spec_inventory_item(s: Seq<char>) -> Result<
    Option<Seq<char>>,
    TurtleGetInventoryError,
> {
    if s == "nil"@ {
        Ok(None)
    } else {
        match block_name_of(s) {
            None => Err(TurtleGetInventoryError::TurtleResponseNotJson),
            Some(name) => {
                let i = spec_first_colon(name);
                if i == name.len() {
                    Err(TurtleGetInventoryError::InvalidName)
                } else {
                    Ok(Some(name.skip(i + 1)))
                }
            },
        }
    }
}

/// Read one inventory slot reply; see [`spec_inventory_item`].
pub fn parse_inventory_item(reply: &str) -> (r: Result<Option<String>, TurtleGetInventoryError>)
    ensures
        spec_inventory_item(reply@) == (match r {
            Ok(None) => Ok::<Option<Seq<char>>, TurtleGetInventoryError>(None),
            Ok(Some(sfx)) => Ok::<Option<Seq<char>>, TurtleGetInventoryError>(Some(sfx@)),
            Err(e) => Err::<Option<Seq<char>>, TurtleGetInventoryError>(e),
        }),
{
    if str_eq(reply, "nil") {
        return Ok(None);
    }
    let name = match json_name_field(reply) {
        None => {
            return Err(TurtleGetInventoryError::TurtleResponseNotJson);
        },
        Some(n) => n,
    };
    let ns = name.as_str();
    let n = ns.unicode_len();
    let mut i: usize = 0;
    while i < n
        invariant
            n == ns@.len(),
            ns@ == name@,
            reply@ != "nil"@,
            block_name_of(reply@) == Some(name@),
            i <= n,
            forall|j: int| 0 <= j < i ==> ns@[j] != ':',
        decreases n - i,
    {
        if ns.get_char(i) == ':' {
            proof {
                lemma_first_colon_found(name@, i as int);
            }
            let sfx = ns.substring_char(i + 1, n).to_owned();
            proof {
                assert(name@.subrange(i as int + 1, n as int) =~= name@.skip(i as int + 1));
                assert(spec_first_colon(name@) == i as int);
            }
            return Ok(Some(sfx));
        }
        i = i + 1;
    }
    proof {
        lemma_first_colon_absent(name@);
    }
    Err(TurtleGetInventoryError::InvalidName)
}

/// What a whole inventory pass yields from its slot replies: empty
/// slots skipped, item names in slot order, the first bad reply failing
/// the pass.
pub open spec fn spec_collect_inventory(rs: Seq<Seq<char>>) -> Result<
    Seq<Seq<char>>,
    TurtleGetInventoryError,
>
    decreases rs.len(),
{
    if rs.len() == 0 {
        Ok(Seq::empty())
    } else {
        match spec_inventory_item(rs[0]) {
            Err(e) => Err(e),
            Ok(None) => spec_collect_inventory(rs.drop_first()),
            Ok(Some(nm)) => match spec_collect_inventory(rs.drop_first()) {
                Err(e) => Err(e),
                Ok(rest) => Ok(seq![nm] + rest),
            },
        }
    }
}

/// Read a whole inventory's slot replies, in slot order; see
/// [`spec_collect_inventory`].
pub fn collect_inventory(replies: &Vec<String>) -> (r: Result<
    Vec<String>,
    TurtleGetInventoryError,
>)
    ensures
        spec_collect_inventory(replies@.map_values(|s: String| s@)) == (match r {
            Ok(v) => Ok::<Seq<Seq<char>>, TurtleGetInventoryError>(
                v@.map_values(|s: String| s@),
            ),
            Err(e) => Err::<Seq<Seq<char>>, TurtleGetInventoryError>(e),
        }),
{
    let ghost rv = replies@.map_values(|s: String| s@);
    let n = replies.len();
    let mut out: Vec<String> = Vec::new();
    let mut i: usize = 0;
    proof {
        assert(rv.skip(0) =~= rv);
        assert(out@.map_values(|s: String| s@) =~= Seq::<Seq<char>>::empty());
        if spec_collect_inventory(rv) is Ok {
            let rest = spec_collect_inventory(rv)->Ok_0;
            assert(Seq::<Seq<char>>::empty() + rest =~= rest);
        }
    }
    while i < n
        invariant
            n == replies@.len(),
            rv == replies@.map_values(|s: String| s@),
            i <= n,
            ({
                let now = spec_collect_inventory(rv.skip(i as int));
                let whole = spec_collect_inventory(rv);
                match now {
                    Ok(rest) => whole == Ok::<Seq<Seq<char>>, TurtleGetInventoryError>(
                        out@.map_values(|s: String| s@) + rest,
                    ),
                    Err(e) => whole == Err::<Seq<Seq<char>>, TurtleGetInventoryError>(e),
                }
            }),
        decreases n - i,
    {
        let ghost pre_out = out@;
        proof {
            assert(rv.skip(i as int)[0] == rv[i as int]);
            assert(rv.skip(i as int).drop_first() =~= rv.skip(i as int + 1));
        }
        match parse_inventory_item(replies[i].as_str()) {
            Err(e) => {
                return Err(e);
            },
            Ok(None) => {},
            Ok(Some(nm)) => {
                let ghost gnm = nm@;
                out.push(nm);
                proof {
                    if spec_collect_inventory(rv.skip(i as int + 1)) is Ok {
                        let rest = spec_collect_inventory(rv.skip(i as int + 1))->Ok_0;
                        assert(pre_out.map_values(|s: String| s@) + (seq![gnm] + rest)
                            =~= out@.map_values(|s: String| s@) + rest);
                    }
                }
            },
        }
        i = i + 1;
    }
    proof {
        assert(rv.skip(n as int) =~= Seq::<Seq<char>>::empty());
        assert(out@.map_values(|s: String| s@) + Seq::<Seq<char>>::empty() =~= out@.map_values(
            |s: String| s@,
        ));
    }
    Ok(out)
}


/// Decimal spelling of an inventory slot number.
pub open spec fn spec_slot_decimal(slot: int) -> Seq<char> {
    if slot == 1 { "1"@ }
    else if slot == 2 { "2"@ }
    else if slot == 3 { "3"@ }
    else if slot == 4 { "4"@ }
    else if slot == 5 { "5"@ }
    else if slot == 6 { "6"@ }
    else if slot == 7 { "7"@ }
    else if slot == 8 { "8"@ }
    else if slot == 9 { "9"@ }
    else if slot == 10 { "10"@ }
    else if slot == 11 { "11"@ }
    else if slot == 12 { "12"@ }
    else if slot == 13 { "13"@ }
    else if slot == 14 { "14"@ }
    else if slot == 15 { "15"@ }
    else { "16"@ }
}

/// The wire command that reads one inventory slot.
pub open spec fn spec_inventory_payload(slot: int) -> Seq<char> {
    "local item = turtle.getItemDetail("@ + spec_slot_decimal(slot)
        + ") if (item ~= nil) then return textutils.serialiseJSON(item) else return nil end"@
}

/// The wire command that reads one inventory slot.
pub fn inventory_payload(slot: u8) -> (r: String)
    requires
        1 <= slot <= 16,
    ensures
        r@ == spec_inventory_payload(slot as int),
{
    let digits: &'static str = match slot {
        1 => "1",
        2 => "2",
        3 => "3",
        4 => "4",
        5 => "5",
        6 => "6",
        7 => "7",
        8 => "8",
        9 => "9",
        10 => "10",
        11 => "11",
        12 => "12",
        13 => "13",
        14 => "14",
        15 => "15",
        _ => "16",
    };
    let mut s = "local item = turtle.getItemDetail(".to_owned();
    s.append(digits);
    s.append(") if (item ~= nil) then return textutils.serialiseJSON(item) else return nil end");
    proof {
        assert(s@ =~= spec_inventory_payload(slot as int));
    }
    s
}

} // verus!
