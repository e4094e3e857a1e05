//! Reading a loaded level scene: the meshes of its node tree, and what the
//! metadata attached to its nodes makes of them.

use vstd::prelude::*;

verus! {

/// A node of a level scene: the ids of the meshes of its own mesh (none when
/// it has no mesh, or that mesh is not loaded), and its child nodes.
pub struct MeshNode {
    pub meshes: Vec<u64>,
    pub children: Vec<MeshNode>,
}

/// The meshes of a node and of all nodes below it: its own first, then each
/// child's in order (depth first).
pub open spec fn node_meshes(node: MeshNode) -> Seq<u64>
    decreases node, 0nat,
{
    node.meshes@ + children_meshes(node.children@)
}

/// The meshes of a list of nodes, one node after the other.
pub open spec fn children_meshes(nodes: Seq<MeshNode>) -> Seq<u64>
    decreases nodes, 1nat,
{
    if nodes.len() == 0 {
        seq![]
    } else {
        children_meshes(nodes.subrange(0, nodes.len() - 1)) + node_meshes(nodes[nodes.len() - 1])
    }
}

/// All meshes of a node's tree, as the level's collision setup looks them up.
pub fn collect_meshes(node: &MeshNode) -> (res: Vec<u64>)
    ensures
        res@ == node_meshes(*node),
    decreases node,
{
    let mut res: Vec<u64> = Vec::new();
    let mut i: usize = 0;
    while i < node.meshes.len()
        invariant
            i <= node.meshes.len(),
            res@ == node.meshes@.take(i as int),
        decreases node.meshes.len() - i,
    {
        res.push(node.meshes[i]);
        i = i + 1;
        assert(res@ =~= node.meshes@.take(i as int));
    }
    assert(node.meshes@.take(node.meshes.len() as int) =~= node.meshes@);
    let mut k: usize = 0;
    while k < node.children.len()
        invariant
            k <= node.children.len(),
            res@ == node.meshes@ + children_meshes(node.children@.take(k as int)),
        decreases node.children.len() - k,
    {
        let child = &node.children[k];
        assert(decreases_to!(node => node.children));
        assert(decreases_to!(node.children => node.children@));
        assert(decreases_to!(node.children@ => node.children@[k as int]));
        let mut sub = collect_meshes(child);
        res.append(&mut sub);
        assert(node.children@.take(k + 1).subrange(0, k as int) =~= node.children@.take(k as int));
        k = k + 1;
        assert(res@ =~= node.meshes@ + children_meshes(node.children@.take(k as int)));
    }
    assert(node.children@.take(node.children.len() as int) =~= node.children@);
    res
}

/// The meshes of the scene's nodes in order, skipping nodes that are not
/// loaded (`None`).
pub open spec fn nodes_meshes(nodes: Seq<Option<MeshNode>>) -> Seq<u64>
    decreases nodes.len(),
{
    if nodes.len() == 0 {
        seq![]
    } else {
        nodes_meshes(nodes.drop_last()) + match nodes.last() {
            Some(n) => node_meshes(n),
            None => seq![],
        }
    }
}

/// The meshes recorded as the level's meshes when a scene finishes loading:
/// those of all its nodes when it is the level's scene, none otherwise.
pub fn scene_meshes(is_level_scene: bool, nodes: &Vec<Option<MeshNode>>) -> (res: Vec<u64>)
    ensures
        res@ == (if is_level_scene { nodes_meshes(nodes@) } else { seq![] }),
{
    let mut res: Vec<u64> = Vec::new();
    if is_level_scene {
        let mut i: usize = 0;
        while i < nodes.len()
            invariant
                i <= nodes.len(),
                res@ == nodes_meshes(nodes@.take(i as int)),
            decreases nodes.len() - i,
        {
            assert(nodes@.take(i + 1).drop_last() =~= nodes@.take(i as int));
            match &nodes[i] {
                Some(n) => {
                    let mut sub = collect_meshes(n);
                    res.append(&mut sub);
                },
                None => {
                    assert(res@ =~= res@ + seq![]);
                },
            }
            i = i + 1;
        }
        assert(nodes@.take(nodes.len() as int) =~= nodes@);
    }
    res
}

/// What `serde_json::from_str::<serde_json::Value>(text)` followed by
/// `value[key].as_str()` gives: `None` when the text is not JSON, else the
/// string at `key` (`None` inside when there is no such string member).
pub uninterp spec fn json_str_member(text: Seq<char>, key: Seq<char>) -> Option<Option<Seq<char>>>;

/// Reads the string member `key` of a JSON object given as text.
///
/// Calls `serde_json::from_str::<serde_json::Value>`, then indexes the value
/// by `key` and takes `as_str`; an error of the parse gives `None`. The
/// result is named `json_str_member`; nothing more is claimed of it.
#[verifier::external_body]
fn json_string_member(text: &str, key: &str) -> (res: Option<Option<String>>)
    ensures
        res.deep_view() == json_str_member(text@, key@),
{
    match serde_json::from_str::<serde_json::Value>(text) {
        Ok(value) => Some(value[key].as_str().map(|s| s.to_string())),
        Err(_) => None,
    }
}

/// The kind of a scene node, from the "type" member of its metadata.
#[derive(Clone, Copy, Debug, PartialEq, Eq, Structural)]
pub enum NodeKind {
    /// "finish": touching it wins the level.
    Finish,
    /// "ground": the player may jump from it.
    Ground,
    /// "damage": touching it costs a life.
    Damage,
    /// "coin": a coin is placed at the node.
    Coin,
    /// Any other or no type.
    Plain,
}

/// What the metadata of a node asks for.
#[derive(Clone, Copy, Debug, PartialEq, Eq, Structural)]
pub struct NodeRole {
    /// "collider" is "true": the node gets a solid collider from its mesh.
    pub collider: bool,
    pub kind: NodeKind,
}

/// The role given by the "collider" and "type" string members of a node's
/// metadata.
pub open spec fn role_of(collider: Option<Seq<char>>, kind: Option<Seq<char>>) -> NodeRole {
    NodeRole {
        collider: collider == Some("true"@),
        kind: if kind == Some("finish"@) {
            NodeKind::Finish
        } else if kind == Some("ground"@) {
            NodeKind::Ground
        } else if kind == Some("damage"@) {
            NodeKind::Damage
        } else if kind == Some("coin"@) {
            NodeKind::Coin
        } else {
            NodeKind::Plain
        },
    }
}

fn is_some_text(s: &Option<String>, text: &str) -> (res: bool)
    ensures
        res == (s.deep_view() == Some(text@)),
{
    match s {
        Some(v) => *v == String::from_str(text),
        None => false,
    }
}

/// The role of a node from its metadata's "collider" and "type" members.
pub fn node_role(collider: &Option<String>, kind: &Option<String>) -> (res: NodeRole)
    ensures
        res == role_of(collider.deep_view(), kind.deep_view()),
{
    let solid = is_some_text(collider, "true");
    let k = if is_some_text(kind, "finish") {
        NodeKind::Finish
    } else if is_some_text(kind, "ground") {
        NodeKind::Ground
    } else if is_some_text(kind, "damage") {
        NodeKind::Damage
    } else if is_some_text(kind, "coin") {
        NodeKind::Coin
    } else {
        NodeKind::Plain
    };
    NodeRole { collider: solid, kind: k }
}

/// Whether a node's metadata text is JSON, as the reading finds it.
pub open spec fn metadata_readable(text: Seq<char>) -> bool {
    json_str_member(text, "collider"@) is Some && json_str_member(text, "type"@) is Some
}

/// The role a node's metadata text gives it.
pub open spec fn metadata_role(text: Seq<char>) -> NodeRole {
    role_of(json_str_member(text, "collider"@)->0, json_str_member(text, "type"@)->0)
}

/// The role of a node from its metadata text; `None` when the text is not
/// JSON (a fatal error of the game).
pub fn classify_metadata(text: &str) -> (res: Option<NodeRole>)
    ensures
        res is Some <==> metadata_readable(text@),
        res matches Some(r) ==> r == metadata_role(text@),
{
    let collider = json_string_member(text, "collider");
    let kind = json_string_member(text, "type");
    match (collider, kind) {
        (Some(c), Some(k)) => Some(node_role(&c, &k)),
        _ => None,
    }
}

/// A mesh entity that appeared this frame under a scene node.
#[derive(Clone, Copy, Debug, PartialEq, Eq, Structural)]
pub struct NewMesh {
    /// The scene node (entity) the mesh entity belongs to.
    pub parent: u64,
    /// The mesh entity itself.
    pub entity: u64,
    /// The id of its mesh.
    pub mesh: u64,
    /// Whether the mesh is loaded and a triangle-mesh collider can be built
    /// from it.
    pub collider_ready: bool,
}

/// A scene node whose metadata appeared this frame.
pub struct TaggedNode {
    pub entity: u64,
    /// The metadata text (JSON).
    pub metadata: String,
}

/// What the level setup does to the entities of a loaded scene.
#[derive(Clone, Copy, Debug, PartialEq, Eq, Structural)]
pub enum SceneCommand {
    /// The node belongs to the running level (it goes when the level ends).
    MarkInGame(u64),
    /// The node becomes solid: not a sensor, with the collider built from
    /// the mesh of the `usize`-th new mesh entity, continuous collision
    /// detection, default collision types and collision events.
    Solidify(u64, usize),
    /// The node becomes a sensor that wins the level.
    MarkFinish(u64),
    /// The mesh entity loses its mesh (it is no longer drawn).
    HideMesh(u64),
    /// The node becomes ground the player can jump from.
    MarkGround(u64),
    /// The node becomes a sensor that costs a life.
    MarkDamage(u64),
    /// A coin is placed where the `usize`-th tagged node stands.
    SpawnCoin(usize),
}

/// The commands one role gives a node `parent` whose new mesh entity is
/// `child`, the `index`-th new mesh entity.
pub open spec fn role_commands(parent: u64, child: u64, index: usize, role: NodeRole) -> Seq<SceneCommand> {
    let solid = if role.collider { seq![SceneCommand::Solidify(parent, index)] } else { seq![] };
    solid + match role.kind {
        NodeKind::Finish => seq![SceneCommand::MarkFinish(parent), SceneCommand::HideMesh(child)],
        NodeKind::Ground => seq![SceneCommand::MarkGround(parent)],
        NodeKind::Damage => seq![SceneCommand::MarkDamage(parent), SceneCommand::HideMesh(child)],
        _ => seq![],
    }
}

/// For the `index`-th new mesh entity `m`: the commands of the roles of the
/// first `n` tagged nodes that are its parent.
pub open spec fn owner_commands(
    tagged: Seq<TaggedNode>,
    roles: Seq<NodeRole>,
    m: NewMesh,
    index: usize,
    n: nat,
) -> Seq<SceneCommand>
    decreases n,
{
    if n == 0 {
        seq![]
    } else {
        owner_commands(tagged, roles, m, index, (n - 1) as nat) + if tagged[n - 1].entity == m.parent {
            role_commands(m.parent, m.entity, index, roles[n - 1])
        } else {
            seq![]
        }
    }
}

/// For the `index`-th new mesh entity `m`: for each of the first `n` level
/// meshes that is its mesh, when a collider can be built, the commands of
/// its parent's roles.
pub open spec fn match_commands(
    loaded: Seq<u64>,
    tagged: Seq<TaggedNode>,
    roles: Seq<NodeRole>,
    m: NewMesh,
    index: usize,
    n: nat,
) -> Seq<SceneCommand>
    decreases n,
{
    if n == 0 {
        seq![]
    } else {
        match_commands(loaded, tagged, roles, m, index, (n - 1) as nat) + if loaded[n - 1] == m.mesh
            && m.collider_ready {
            owner_commands(tagged, roles, m, index, tagged.len())
        } else {
            seq![]
        }
    }
}

/// The commands for the first `n` new mesh entities: each parent joins the
/// level, then the matches of its mesh.
pub open spec fn mesh_commands(
    loaded: Seq<u64>,
    meshes: Seq<NewMesh>,
    tagged: Seq<TaggedNode>,
    roles: Seq<NodeRole>,
    n: nat,
) -> Seq<SceneCommand>
    decreases n,
{
    if n == 0 {
        seq![]
    } else {
        mesh_commands(loaded, meshes, tagged, roles, (n - 1) as nat)
            + seq![SceneCommand::MarkInGame(meshes[n - 1].parent)]
            + match_commands(loaded, tagged, roles, meshes[n - 1], (n - 1) as usize, loaded.len())
    }
}

/// A coin for each of the first `n` tagged nodes of kind coin.
pub open spec fn coin_commands(roles: Seq<NodeRole>, n: nat) -> Seq<SceneCommand>
    decreases n,
{
    if n == 0 {
        seq![]
    } else {
        coin_commands(roles, (n - 1) as nat) + if roles[n - 1].kind == NodeKind::Coin {
            seq![SceneCommand::SpawnCoin((n - 1) as usize)]
        } else {
            seq![]
        }
    }
}

/// The roles of tagged nodes, read from their metadata.
pub open spec fn tagged_roles(tagged: Seq<TaggedNode>) -> Seq<NodeRole> {
    tagged.map_values(|t: TaggedNode| metadata_role(t.metadata@))
}

/// Whether every tagged node's metadata is JSON.
pub open spec fn all_readable(tagged: Seq<TaggedNode>) -> bool {
    forall|j: int| 0 <= j < tagged.len() ==> metadata_readable(#[trigger] tagged[j].metadata@)
}

/// The commands of a frame of level setup: when the level's meshes are
/// known, those of the new mesh entities; then a coin for each coin node.
pub open spec fn scene_commands(
    loaded: Option<Seq<u64>>,
    meshes: Seq<NewMesh>,
    tagged: Seq<TaggedNode>,
) -> Seq<SceneCommand> {
    let roles = tagged_roles(tagged);
    (match loaded {
        Some(l) => mesh_commands(l, meshes, tagged, roles, meshes.len()),
        None => seq![],
    }) + coin_commands(roles, roles.len())
}

fn push_role_commands(out: &mut Vec<SceneCommand>, parent: u64, child: u64, index: usize, role: NodeRole)
    ensures
        final(out)@ == old(out)@ + role_commands(parent, child, index, role),
{
    let ghost start = out@;
    if role.collider {
        out.push(SceneCommand::Solidify(parent, index));
    }
    let ghost mid = out@;
    match role.kind {
        NodeKind::Finish => {
            out.push(SceneCommand::MarkFinish(parent));
            out.push(SceneCommand::HideMesh(child));
        },
        NodeKind::Ground => {
            out.push(SceneCommand::MarkGround(parent));
        },
        NodeKind::Damage => {
            out.push(SceneCommand::MarkDamage(parent));
            out.push(SceneCommand::HideMesh(child));
        },
        _ => {},
    }
    assert(out@ =~= start + role_commands(parent, child, index, role));
}

fn push_owner_commands(
    out: &mut Vec<SceneCommand>,
    tagged: &Vec<TaggedNode>,
    roles: &Vec<NodeRole>,
    m: NewMesh,
    index: usize,
)
    requires
        tagged.len() == roles.len(),
    ensures
        final(out)@ == old(out)@ + owner_commands(tagged@, roles@, m, index, tagged.len() as nat),
{
    let ghost start = out@;
    let mut j: usize = 0;
    while j < tagged.len()
        invariant
            j <= tagged.len(),
            tagged.len() == roles.len(),
            out@ == start + owner_commands(tagged@, roles@, m, index, j as nat),
        decreases tagged.len() - j,
    {
        let ghost before = out@;
        if tagged[j].entity == m.parent {
            push_role_commands(out, m.parent, m.entity, index, roles[j]);
        }
        j = j + 1;
        assert(out@ =~= start + owner_commands(tagged@, roles@, m, index, j as nat));
    }
}

fn push_match_commands(
    out: &mut Vec<SceneCommand>,
    loaded: &Vec<u64>,
    tagged: &Vec<TaggedNode>,
    roles: &Vec<NodeRole>,
    m: NewMesh,
    index: usize,
)
    requires
        tagged.len() == roles.len(),
    ensures
        final(out)@ == old(out)@ + match_commands(loaded@, tagged@, roles@, m, index, loaded.len() as nat),
{
    let ghost start = out@;
    let mut k: usize = 0;
    while k < loaded.len()
        invariant
            k <= loaded.len(),
            tagged.len() == roles.len(),
            out@ == start + match_commands(loaded@, tagged@, roles@, m, index, k as nat),
        decreases loaded.len() - k,
    {
        if loaded[k] == m.mesh && m.collider_ready {
            push_owner_commands(out, tagged, roles, m, index);
        }
        k = k + 1;
        assert(out@ =~= start + match_commands(loaded@, tagged@, roles@, m, index, k as nat));
    }
}

/// The commands that set up the entities of a loaded level scene in one
/// frame. `loaded` holds the level's meshes once they are known; `meshes`
/// are the mesh entities that appeared this frame, `tagged` the nodes whose
/// metadata appeared this frame. Each new mesh entity's node joins the
/// level; when its mesh is a level mesh from which a collider can be built,
/// its node's metadata may make the node solid, a goal, ground or a hazard.
/// Each coin node gets a coin. `None` when some metadata is not JSON (a
/// fatal error of the game).
pub fn metadata_commands(
    loaded: Option<&Vec<u64>>,
    meshes: &Vec<NewMesh>,
    tagged: &Vec<TaggedNode>,
) -> (res: Option<Vec<SceneCommand>>)
    ensures
        res is Some <==> all_readable(tagged@),
        res matches Some(cmds) ==> cmds@ == scene_commands(
            match loaded { Some(l) => Some(l@), None => None },
            meshes@,
            tagged@,
        ),
{
    let mut roles: Vec<NodeRole> = Vec::new();
    let mut j: usize = 0;
    while j < tagged.len()
        invariant
            j <= tagged.len(),
            roles@ == tagged_roles(tagged@).take(j as int),
            all_readable(tagged@.take(j as int)),
        decreases tagged.len() - j,
    {
        match classify_metadata(tagged[j].metadata.as_str()) {
            Some(role) => {
                roles.push(role);
            },
            None => {
                assert(!all_readable(tagged@)) by {
                    assert(!metadata_readable(tagged@[j as int].metadata@));
                }
                return None;
            },
        }
        j = j + 1;
        assert(roles@ =~= tagged_roles(tagged@).take(j as int));
        assert(all_readable(tagged@.take(j as int))) by {
            assert forall|q: int| 0 <= q < j implies metadata_readable(#[trigger] tagged@.take(j as int)[q].metadata@) by {
                if q < j - 1 {
                    assert(tagged@.take(j as int)[q] == tagged@.take(j - 1)[q]);
                }
            }
        }
    }
    assert(roles@ =~= tagged_roles(tagged@));
    assert(tagged@.take(tagged.len() as int) =~= tagged@);
    let mut out: Vec<SceneCommand> = Vec::new();
    match loaded {
        Some(l) => {
            let mut i: usize = 0;
            while i < meshes.len()
                invariant
                    i <= meshes.len(),
                    tagged.len() == roles.len(),
                    roles@ == tagged_roles(tagged@),
                    out@ == mesh_commands(l@, meshes@, tagged@, roles@, i as nat),
                decreases meshes.len() - i,
            {
                let m = meshes[i];
                out.push(SceneCommand::MarkInGame(m.parent));
                push_match_commands(&mut out, l, tagged, &roles, m, i);
                i = i + 1;
                assert(out@ =~= mesh_commands(l@, meshes@, tagged@, roles@, i as nat));
            }
        },
        None => {},
    }
    let ghost first = out@;
    let mut c: usize = 0;
    while c < roles.len()
        invariant
            c <= roles.len(),
            out@ == first + coin_commands(roles@, c as nat),
        decreases roles.len() - c,
    {
        if roles[c].kind == NodeKind::Coin {
            out.push(SceneCommand::SpawnCoin(c));
        }
        c = c + 1;
        assert(out@ =~= first + coin_commands(roles@, c as nat));
    }
    Some(out)
}

/// Whether a command refers to what it may: a collider is taken only from
/// a new mesh entity under that very node whose collider can be built, and a
/// coin only at a tagged node.
pub open spec fn command_fits(c: SceneCommand, meshes: Seq<NewMesh>, tagged_len: nat) -> bool {
    match c {
        SceneCommand::Solidify(parent, index) => index < meshes.len() && meshes[index as int].parent
            == parent && meshes[index as int].collider_ready,
        SceneCommand::SpawnCoin(index) => index < tagged_len,
        _ => true,
    }
}

/// Whether every command of a list fits.
pub open spec fn commands_fit(cmds: Seq<SceneCommand>, meshes: Seq<NewMesh>, tagged_len: nat) -> bool {
    forall|k: int| 0 <= k < cmds.len() ==> command_fits(#[trigger] cmds[k], meshes, tagged_len)
}

proof fn lemma_fit_concat(a: Seq<SceneCommand>, b: Seq<SceneCommand>, meshes: Seq<NewMesh>, tagged_len: nat)
    requires
        commands_fit(a, meshes, tagged_len),
        commands_fit(b, meshes, tagged_len),
    ensures
        commands_fit(a + b, meshes, tagged_len),
{
    assert forall|k: int| 0 <= k < (a + b).len() implies command_fits(#[trigger] (a + b)[k], meshes, tagged_len) by {
        if k < a.len() {
            assert((a + b)[k] == a[k]);
        } else {
            assert((a + b)[k] == b[k - a.len()]);
        }
    }
}

proof fn lemma_owner_fit(
    tagged: Seq<TaggedNode>,
    roles: Seq<NodeRole>,
    meshes: Seq<NewMesh>,
    index: usize,
    n: nat,
    tagged_len: nat,
)
    requires
        index < meshes.len(),
        meshes[index as int].collider_ready,
        n <= tagged.len(),
    ensures
        commands_fit(owner_commands(tagged, roles, meshes[index as int], index, n), meshes, tagged_len),
    decreases n,
{
    let m = meshes[index as int];
    if n > 0 {
        lemma_owner_fit(tagged, roles, meshes, index, (n - 1) as nat, tagged_len);
        let extra = if tagged[n - 1].entity == m.parent {
            role_commands(m.parent, m.entity, index, roles[n - 1])
        } else {
            seq![]
        };
        assert(commands_fit(extra, meshes, tagged_len)) by {
            assert forall|k: int| 0 <= k < extra.len() implies command_fits(#[trigger] extra[k], meshes, tagged_len) by {
                let role = roles[n - 1];
                let solid = if role.collider { seq![SceneCommand::Solidify(m.parent, index)] } else { seq![] };
                if tagged[n - 1].entity == m.parent && k < solid.len() {
                    assert(extra[k] == solid[k]);
                }
            }
        }
        lemma_fit_concat(owner_commands(tagged, roles, m, index, (n - 1) as nat), extra, meshes, tagged_len);
    }
}

proof fn lemma_match_fit(
    loaded: Seq<u64>,
    tagged: Seq<TaggedNode>,
    roles: Seq<NodeRole>,
    meshes: Seq<NewMesh>,
    index: usize,
    n: nat,
)
    requires
        index < meshes.len(),
        n <= loaded.len(),
    ensures
        commands_fit(match_commands(loaded, tagged, roles, meshes[index as int], index, n), meshes, tagged.len()),
    decreases n,
{
    let m = meshes[index as int];
    if n > 0 {
        lemma_match_fit(loaded, tagged, roles, meshes, index, (n - 1) as nat);
        let extra = if loaded[n - 1] == m.mesh && m.collider_ready {
            owner_commands(tagged, roles, m, index, tagged.len())
        } else {
            seq![]
        };
        if loaded[n - 1] == m.mesh && m.collider_ready {
            lemma_owner_fit(tagged, roles, meshes, index, tagged.len(), tagged.len());
        }
        lemma_fit_concat(match_commands(loaded, tagged, roles, m, index, (n - 1) as nat), extra, meshes, tagged.len());
    }
}

proof fn lemma_mesh_fit(
    loaded: Seq<u64>,
    meshes: Seq<NewMesh>,
    tagged: Seq<TaggedNode>,
    roles: Seq<NodeRole>,
    n: nat,
)
    requires
        n <= meshes.len(),
        meshes.len() <= usize::MAX,
    ensures
        commands_fit(mesh_commands(loaded, meshes, tagged, roles, n), meshes, tagged.len()),
    decreases n,
{
    if n > 0 {
        lemma_mesh_fit(loaded, meshes, tagged, roles, (n - 1) as nat);
        let before = mesh_commands(loaded, meshes, tagged, roles, (n - 1) as nat);
        let mark = seq![SceneCommand::MarkInGame(meshes[n - 1].parent)];
        assert(commands_fit(mark, meshes, tagged.len()));
        lemma_fit_concat(before, mark, meshes, tagged.len());
        lemma_match_fit(loaded, tagged, roles, meshes, (n - 1) as usize, loaded.len());
        lemma_fit_concat(
            before + mark,
            match_commands(loaded, tagged, roles, meshes[n - 1], (n - 1) as usize, loaded.len()),
            meshes,
            tagged.len(),
        );
    }
}

proof fn lemma_coin_fit(roles: Seq<NodeRole>, meshes: Seq<NewMesh>, n: nat, tagged_len: nat)
    requires
        n <= tagged_len,
        tagged_len <= usize::MAX,
    ensures
        commands_fit(coin_commands(roles, n), meshes, tagged_len),
    decreases n,
{
    if n > 0 {
        lemma_coin_fit(roles, meshes, (n - 1) as nat, tagged_len);
        let extra = if roles[n - 1].kind == NodeKind::Coin {
            seq![SceneCommand::SpawnCoin((n - 1) as usize)]
        } else {
            seq![]
        };
        lemma_fit_concat(coin_commands(roles, (n - 1) as nat), extra, meshes, tagged_len);
    }
}

/// Every command of a frame of level setup refers to what exists: a node
/// is made solid only with the collider of a new mesh entity under that
/// very node whose collider could be built, and each coin stands at one of
/// the tagged nodes.
pub proof fn lemma_commands_fit(loaded: Option<Seq<u64>>, meshes: Seq<NewMesh>, tagged: Seq<TaggedNode>)
    requires
        meshes.len() <= usize::MAX,
        tagged.len() <= usize::MAX,
    ensures
        commands_fit(scene_commands(loaded, meshes, tagged), meshes, tagged.len()),
{
    let roles = tagged_roles(tagged);
    let first = match loaded {
        Some(l) => mesh_commands(l, meshes, tagged, roles, meshes.len()),
        None => seq![],
    };
    match loaded {
        Some(l) => {
            lemma_mesh_fit(l, meshes, tagged, roles, meshes.len());
        },
        None => {},
    }
    lemma_coin_fit(roles, meshes, roles.len(), tagged.len());
    lemma_fit_concat(first, coin_commands(roles, roles.len()), meshes, tagged.len());
}

proof fn lemma_contains_concat<A>(a: Seq<A>, b: Seq<A>, x: A)
    requires
        a.contains(x) || b.contains(x),
    ensures
        (a + b).contains(x),
{
    if a.contains(x) {
        let k = choose|k: int| 0 <= k < a.len() && a[k] == x;
        assert((a + b)[k] == x);
    } else {
        let k = choose|k: int| 0 <= k < b.len() && b[k] == x;
        assert((a + b)[a.len() + k] == x);
    }
}

proof fn lemma_owner_contains(
    tagged: Seq<TaggedNode>,
    roles: Seq<NodeRole>,
    m: NewMesh,
    index: usize,
    n: nat,
    j: int,
    x: SceneCommand,
)
    requires
        0 <= j < n <= tagged.len(),
        tagged[j].entity == m.parent,
        role_commands(m.parent, m.entity, index, roles[j]).contains(x),
    ensures
        owner_commands(tagged, roles, m, index, n).contains(x),
    decreases n,
{
    let before = owner_commands(tagged, roles, m, index, (n - 1) as nat);
    let extra = if tagged[n - 1].entity == m.parent {
        role_commands(m.parent, m.entity, index, roles[n - 1])
    } else {
        seq![]
    };
    if j < n - 1 {
        lemma_owner_contains(tagged, roles, m, index, (n - 1) as nat, j, x);
    }
    lemma_contains_concat(before, extra, x);
}

proof fn lemma_match_contains(
    loaded: Seq<u64>,
    tagged: Seq<TaggedNode>,
    roles: Seq<NodeRole>,
    m: NewMesh,
    index: usize,
    n: nat,
    k: int,
    x: SceneCommand,
)
    requires
        0 <= k < n <= loaded.len(),
        loaded[k] == m.mesh,
        m.collider_ready,
        owner_commands(tagged, roles, m, index, tagged.len()).contains(x),
    ensures
        match_commands(loaded, tagged, roles, m, index, n).contains(x),
    decreases n,
{
    let before = match_commands(loaded, tagged, roles, m, index, (n - 1) as nat);
    let extra = if loaded[n - 1] == m.mesh && m.collider_ready {
        owner_commands(tagged, roles, m, index, tagged.len())
    } else {
        seq![]
    };
    if k < n - 1 {
        lemma_match_contains(loaded, tagged, roles, m, index, (n - 1) as nat, k, x);
    }
    lemma_contains_concat(before, extra, x);
}

proof fn lemma_mesh_contains(
    loaded: Seq<u64>,
    meshes: Seq<NewMesh>,
    tagged: Seq<TaggedNode>,
    roles: Seq<NodeRole>,
    n: nat,
    i: int,
    x: SceneCommand,
)
    requires
        0 <= i < n <= meshes.len(),
        x == SceneCommand::MarkInGame(meshes[i].parent)
            || match_commands(loaded, tagged, roles, meshes[i], i as usize, loaded.len()).contains(x),
    ensures
        mesh_commands(loaded, meshes, tagged, roles, n).contains(x),
    decreases n,
{
    let before = mesh_commands(loaded, meshes, tagged, roles, (n - 1) as nat);
    let mark = seq![SceneCommand::MarkInGame(meshes[n - 1].parent)];
    let found = match_commands(loaded, tagged, roles, meshes[n - 1], (n - 1) as usize, loaded.len());
    if i < n - 1 {
        lemma_mesh_contains(loaded, meshes, tagged, roles, (n - 1) as nat, i, x);
        lemma_contains_concat(before, mark, x);
        lemma_contains_concat(before + mark, found, x);
    } else if x == SceneCommand::MarkInGame(meshes[i].parent) {
        assert(mark[0] == x);
        lemma_contains_concat(before, mark, x);
        lemma_contains_concat(before + mark, found, x);
    } else {
        lemma_contains_concat(before + mark, found, x);
    }
}

proof fn lemma_coin_contains(roles: Seq<NodeRole>, n: nat, j: int)
    requires
        0 <= j < n <= roles.len(),
        roles[j].kind == NodeKind::Coin,
    ensures
        coin_commands(roles, n).contains(SceneCommand::SpawnCoin(j as usize)),
    decreases n,
{
    let before = coin_commands(roles, (n - 1) as nat);
    let extra = if roles[n - 1].kind == NodeKind::Coin {
        seq![SceneCommand::SpawnCoin((n - 1) as usize)]
    } else {
        seq![]
    };
    if j < n - 1 {
        lemma_coin_contains(roles, (n - 1) as nat, j);
    } else {
        assert(extra[0] == SceneCommand::SpawnCoin(j as usize));
    }
    lemma_contains_concat(before, extra, SceneCommand::SpawnCoin(j as usize));
}

/// The type names of node metadata differ from one another.
proof fn lemma_type_names_differ()
    ensures
        "finish"@ != "ground"@,
        "finish"@ != "damage"@,
        "finish"@ != "coin"@,
        "ground"@ != "damage"@,
        "ground"@ != "coin"@,
        "damage"@ != "coin"@,
{
    reveal_strlit("finish");
    reveal_strlit("ground");
    reveal_strlit("damage");
    reveal_strlit("coin");
    assert("finish"@[0] != "ground"@[0]);
    assert("finish"@[0] != "damage"@[0]);
    assert("finish"@.len() != "coin"@.len());
    assert("ground"@[0] != "damage"@[0]);
    assert("ground"@.len() != "coin"@.len());
    assert("damage"@.len() != "coin"@.len());
}

/// When the level's meshes are known, the node of every new mesh entity
/// joins the level.
pub proof fn lemma_new_meshes_join_level(loaded: Seq<u64>, meshes: Seq<NewMesh>, tagged: Seq<TaggedNode>, i: int)
    requires
        0 <= i < meshes.len(),
    ensures
        scene_commands(Some(loaded), meshes, tagged).contains(SceneCommand::MarkInGame(meshes[i].parent)),
{
    let roles = tagged_roles(tagged);
    let x = SceneCommand::MarkInGame(meshes[i].parent);
    lemma_mesh_contains(loaded, meshes, tagged, roles, meshes.len(), i, x);
    lemma_contains_concat(mesh_commands(loaded, meshes, tagged, roles, meshes.len()), coin_commands(roles, roles.len()), x);
}

/// What the metadata of a node does when a new mesh entity under it has
/// one of the level's meshes and a collider can be built from it: with
/// "collider" "true" the node is made solid with that mesh's collider; with
/// type "ground" it becomes ground; with type "finish" it becomes the goal
/// and with type "damage" a hazard, and either way the mesh entity stops
/// being drawn.
pub proof fn lemma_metadata_effects(
    loaded: Seq<u64>,
    meshes: Seq<NewMesh>,
    tagged: Seq<TaggedNode>,
    i: int,
    j: int,
    k: int,
)
    requires
        0 <= i < meshes.len() <= usize::MAX,
        meshes[i].collider_ready,
        0 <= k < loaded.len(),
        loaded[k] == meshes[i].mesh,
        0 <= j < tagged.len(),
        tagged[j].entity == meshes[i].parent,
    ensures
        ({
            let t = tagged[j].metadata@;
            let cmds = scene_commands(Some(loaded), meshes, tagged);
            let p = meshes[i].parent;
            let e = meshes[i].entity;
            &&& json_str_member(t, "collider"@) == Some(Some("true"@))
                ==> cmds.contains(SceneCommand::Solidify(p, i as usize))
            &&& json_str_member(t, "type"@) == Some(Some("ground"@))
                ==> cmds.contains(SceneCommand::MarkGround(p))
            &&& json_str_member(t, "type"@) == Some(Some("finish"@))
                ==> cmds.contains(SceneCommand::MarkFinish(p)) && cmds.contains(SceneCommand::HideMesh(e))
            &&& json_str_member(t, "type"@) == Some(Some("damage"@))
                ==> cmds.contains(SceneCommand::MarkDamage(p)) && cmds.contains(SceneCommand::HideMesh(e))
        }),
{
    lemma_type_names_differ();
    let t = tagged[j].metadata@;
    let roles = tagged_roles(tagged);
    let m = meshes[i];
    let p = m.parent;
    let e = m.entity;
    let idx = i as usize;
    let role = roles[j];
    assert(role == metadata_role(t));
    let solid = if role.collider { seq![SceneCommand::Solidify(p, idx)] } else { seq![] };
    let kind_part = match role.kind {
        NodeKind::Finish => seq![SceneCommand::MarkFinish(p), SceneCommand::HideMesh(e)],
        NodeKind::Ground => seq![SceneCommand::MarkGround(p)],
        NodeKind::Damage => seq![SceneCommand::MarkDamage(p), SceneCommand::HideMesh(e)],
        _ => seq![],
    };
    let rc = role_commands(p, e, idx, role);
    assert(rc == solid + kind_part);
    let cmds = scene_commands(Some(loaded), meshes, tagged);
    assert forall|x: SceneCommand| rc.contains(x) implies cmds.contains(x) by {
        lemma_owner_contains(tagged, roles, m, idx, tagged.len(), j, x);
        lemma_match_contains(loaded, tagged, roles, m, idx, loaded.len(), k, x);
        lemma_mesh_contains(loaded, meshes, tagged, roles, meshes.len(), i, x);
        lemma_contains_concat(mesh_commands(loaded, meshes, tagged, roles, meshes.len()), coin_commands(roles, roles.len()), x);
    }
    if role.collider {
        assert(solid[0] == SceneCommand::Solidify(p, idx));
        lemma_contains_concat(solid, kind_part, SceneCommand::Solidify(p, idx));
    }
    match role.kind {
        NodeKind::Finish => {
            assert(kind_part[0] == SceneCommand::MarkFinish(p));
            assert(kind_part[1] == SceneCommand::HideMesh(e));
            lemma_contains_concat(solid, kind_part, SceneCommand::MarkFinish(p));
            lemma_contains_concat(solid, kind_part, SceneCommand::HideMesh(e));
        },
        NodeKind::Ground => {
            assert(kind_part[0] == SceneCommand::MarkGround(p));
            lemma_contains_concat(solid, kind_part, SceneCommand::MarkGround(p));
        },
        NodeKind::Damage => {
            assert(kind_part[0] == SceneCommand::MarkDamage(p));
            assert(kind_part[1] == SceneCommand::HideMesh(e));
            lemma_contains_concat(solid, kind_part, SceneCommand::MarkDamage(p));
            lemma_contains_concat(solid, kind_part, SceneCommand::HideMesh(e));
        },
        _ => {},
    }
}

/// Every node whose metadata has type "coin" gets a coin, whether or not the
/// level's meshes are known.
pub proof fn lemma_coin_nodes_get_coins(
    loaded: Option<Seq<u64>>,
    meshes: Seq<NewMesh>,
    tagged: Seq<TaggedNode>,
    j: int,
)
    requires
        0 <= j < tagged.len() <= usize::MAX,
        json_str_member(tagged[j].metadata@, "type"@) == Some(Some("coin"@)),
    ensures
        scene_commands(loaded, meshes, tagged).contains(SceneCommand::SpawnCoin(j as usize)),
{
    lemma_type_names_differ();
    let roles = tagged_roles(tagged);
    assert(roles[j] == metadata_role(tagged[j].metadata@));
    lemma_coin_contains(roles, roles.len(), j);
    let first = match loaded {
        Some(l) => mesh_commands(l, meshes, tagged, roles, meshes.len()),
        None => seq![],
    };
    lemma_contains_concat(first, coin_commands(roles, roles.len()), SceneCommand::SpawnCoin(j as usize));
}

proof fn lemma_children_contain(nodes: Seq<MeshNode>, k: int, x: u64)
    requires
        0 <= k < nodes.len(),
        node_meshes(nodes[k]).contains(x),
    ensures
        children_meshes(nodes).contains(x),
    decreases nodes.len(),
{
    let front = nodes.subrange(0, nodes.len() - 1);
    if k < nodes.len() - 1 {
        assert(front[k] == nodes[k]);
        lemma_children_contain(front, k, x);
    }
    lemma_contains_concat(children_meshes(front), node_meshes(nodes[nodes.len() - 1]), x);
}

/// The meshes read from a node's tree begin with the node's own meshes, in
/// order, and hold every mesh of the tree below each of its children,
/// whether or not the node has meshes of its own.
pub proof fn lemma_tree_meshes(node: MeshNode, k: int, x: u64)
    ensures
        node_meshes(node).take(node.meshes@.len() as int) == node.meshes@,
        node.meshes@.contains(x) ==> node_meshes(node).contains(x),
        0 <= k < node.children@.len() && node_meshes(node.children@[k]).contains(x)
            ==> node_meshes(node).contains(x),
{
    assert(node_meshes(node).take(node.meshes@.len() as int) =~= node.meshes@);
    if node.meshes@.contains(x) {
        lemma_contains_concat(node.meshes@, children_meshes(node.children@), x);
    }
    if 0 <= k < node.children@.len() && node_meshes(node.children@[k]).contains(x) {
        lemma_children_contain(node.children@, k, x);
        lemma_contains_concat(node.meshes@, children_meshes(node.children@), x);
    }
}

/// The level's meshes hold every mesh of the tree of every loaded node of
/// the scene.
pub proof fn lemma_scene_meshes_complete(nodes: Seq<Option<MeshNode>>, i: int, x: u64)
    requires
        0 <= i < nodes.len(),
        nodes[i] matches Some(n) && node_meshes(n).contains(x),
    ensures
        nodes_meshes(nodes).contains(x),
    decreases nodes.len(),
{
    let front = nodes.drop_last();
    let last_part = match nodes.last() {
        Some(n) => node_meshes(n),
        None => seq![],
    };
    if i < nodes.len() - 1 {
        assert(front[i] == nodes[i]);
        lemma_scene_meshes_complete(front, i, x);
    }
    lemma_contains_concat(nodes_meshes(front), last_part, x);
}

} // verus!
