//! The assigned-meshes draw target: for every visible entity a pipeline has
//! been assigned, bind the entity's mesh buffers (skipping a rebind when the
//! mesh does not change) and issue an indexed draw call.
//!
//! The render pass, the renderer, the mesh storage and the ECS world are
//! collaborators outside this crate; the draw target sees them as plain
//! values: the entities assigned to the pipeline, the buffers the renderer
//! holds per mesh, and a recorder that keeps the commands issued against the
//! pass in order.

use vstd::prelude::*;

verus! {

/// What the draw target reads of one entity assigned to a pipeline: the
/// entity's identity, whether its renderable is visible, and its mesh
/// handle.
#[derive(Clone, Copy, PartialEq, Eq, Structural, Debug)]
pub struct AssignedEntity {
    pub entity: u64,
    pub is_visible: bool,
    pub mesh: u64,
}

/// The buffers the renderer holds for one mesh: the vertex buffer, if the
/// mesh has one, and the index buffer with its size in bytes.  Each index
/// is two bytes wide.
#[derive(Clone, Copy, PartialEq, Eq, Structural, Debug)]
pub struct MeshBuffers {
    pub mesh: u64,
    pub has_vertex_buffer: bool,
    pub vertex_buffer: u64,
    pub index_buffer: u64,
    pub index_buffer_size: u64,
}

/// The index count of a mesh fits the draw call's argument.
pub open spec fn wf_mesh_buffers(m: MeshBuffers) -> bool {
    m.index_buffer_size / 2 <= u32::MAX
}

/// One command issued against the render pass or the renderer, in order.
#[derive(Clone, Copy, PartialEq, Eq, Structural, Debug)]
pub enum RenderCommand {
    SetIndexBuffer { buffer: u64, offset: u64 },
    SetVertexBuffer { slot: u32, buffer: u64, offset: u64 },
    SetBindGroups { entity: u64 },
    DrawIndexed { index_start: u32, index_end: u32, base_vertex: i32, instance_start: u32, instance_end: u32 },
    SetupEntityBindGroups { entity: u64, pipeline: u64 },
}

/// The render pass as the draw target sees it: a recorder of the commands
/// issued against the pass.
pub struct RenderPass {
    pub commands: Vec<RenderCommand>,
}

/// The renderer as setup sees it: a recorder of the bind-group setup calls.
pub struct Renderer {
    pub commands: Vec<RenderCommand>,
}

/// The buffers of a mesh: the first entry with the handle, if any.
pub open spec fn mesh_lookup(meshes: Seq<MeshBuffers>, mesh: u64) -> Option<MeshBuffers>
    decreases meshes.len(),
{
    if meshes.len() == 0 {
        None
    } else if meshes[0].mesh == mesh {
        Some(meshes[0])
    } else {
        mesh_lookup(meshes.drop_first(), mesh)
    }
}

proof fn lemma_mesh_lookup_member(meshes: Seq<MeshBuffers>, mesh: u64)
    requires
        mesh_lookup(meshes, mesh) is Some,
    ensures
        exists|k: int| 0 <= k < meshes.len() && meshes[k] == mesh_lookup(meshes, mesh)->Some_0,
    decreases meshes.len(),
{
    if meshes.len() > 0 && meshes[0].mesh != mesh {
        lemma_mesh_lookup_member(meshes.drop_first(), mesh);
        let k = choose|k: int|
            0 <= k < meshes.drop_first().len() && meshes.drop_first()[k] == mesh_lookup(
                meshes.drop_first(),
                mesh,
            )->Some_0;
        assert(meshes[k + 1] == mesh_lookup(meshes, mesh)->Some_0);
    }
}

fn find_mesh(meshes: &Vec<MeshBuffers>, mesh: u64) -> (r: Option<MeshBuffers>)
    ensures
        r == mesh_lookup(meshes@, mesh),
{
    let n = meshes.len();
    let mut i: usize = 0;
    proof {
        assert(meshes@.skip(0) =~= meshes@);
    }
    while i < n
        invariant
            i <= n,
            n == meshes@.len(),
            mesh_lookup(meshes@, mesh) == mesh_lookup(meshes@.skip(i as int), mesh),
        decreases n - i,
    {
        proof {
            assert(meshes@.skip(i as int)[0] == meshes@[i as int]);
        }
        if meshes[i].mesh == mesh {
            return Some(meshes[i]);
        }
        proof {
            assert(meshes@.skip(i as int).drop_first() =~= meshes@.skip(i + 1 as int));
        }
        i = i + 1;
    }
    proof {
        assert(meshes@.skip(n as int).len() == 0);
    }
    None
}

/// The commands one entity contributes when it is visible: the buffer binds
/// when its mesh differs from the one currently bound, and the new bind
/// state.  A mesh without a vertex buffer binds nothing, but still becomes
/// the current mesh, with the index count left as it was.
pub open spec fn bind_commands(
    meshes: Seq<MeshBuffers>,
    e: AssignedEntity,
    current_mesh: Option<u64>,
    current_len: u32,
) -> (Seq<RenderCommand>, u32) {
    if current_mesh == Some(e.mesh) {
        (Seq::empty(), current_len)
    } else {
        match mesh_lookup(meshes, e.mesh) {
            Option::Some(mb) => if mb.has_vertex_buffer {
                (
                    seq![
                        RenderCommand::SetIndexBuffer { buffer: mb.index_buffer, offset: 0 },
                        RenderCommand::SetVertexBuffer {
                            slot: 0,
                            buffer: mb.vertex_buffer,
                            offset: 0,
                        },
                    ],
                    (mb.index_buffer_size / 2) as u32,
                )
            } else {
                (Seq::empty(), current_len)
            },
            Option::None => (Seq::empty(), current_len),
        }
    }
}

/// The whole command sequence the draw target issues for a list of assigned
/// entities, given the mesh table and the bind state carried in.
pub open spec fn draw_commands(
    entities: Seq<AssignedEntity>,
    meshes: Seq<MeshBuffers>,
    current_mesh: Option<u64>,
    current_len: u32,
) -> Seq<RenderCommand>
    decreases entities.len(),
{
    if entities.len() == 0 {
        Seq::empty()
    } else {
        let e = entities[0];
        if !e.is_visible {
            draw_commands(entities.drop_first(), meshes, current_mesh, current_len)
        } else {
            let bind = bind_commands(meshes, e, current_mesh, current_len);
            bind.0 + seq![
                RenderCommand::SetBindGroups { entity: e.entity },
                RenderCommand::DrawIndexed {
                    index_start: 0,
                    index_end: bind.1,
                    base_vertex: 0,
                    instance_start: 0,
                    instance_end: 1,
                },
            ] + draw_commands(entities.drop_first(), meshes, Some(e.mesh), bind.1)
        }
    }
}

/// The bind-group setup calls: one per visible assigned entity, in order.
pub open spec fn setup_commands(entities: Seq<AssignedEntity>, pipeline: u64) -> Seq<RenderCommand>
    decreases entities.len(),
{
    if entities.len() == 0 {
        Seq::empty()
    } else if entities[0].is_visible {
        seq![
            RenderCommand::SetupEntityBindGroups { entity: entities[0].entity, pipeline },
        ] + setup_commands(entities.drop_first(), pipeline)
    } else {
        setup_commands(entities.drop_first(), pipeline)
    }
}

/// The draw target for the meshes a shader pipeline has been assigned.
pub struct AssignedMeshesDrawTarget;

impl Default for AssignedMeshesDrawTarget {
    /// The draw target carries no state of its own.
    fn default() -> (r: Self)
        ensures
            r == AssignedMeshesDrawTarget,
    {
        AssignedMeshesDrawTarget
    }
}

impl AssignedMeshesDrawTarget {
    /// Record the draw calls for every visible entity assigned to the
    /// pipeline: bind the entity's mesh buffers when its mesh differs from
    /// the mesh currently bound, then set the entity's bind groups and draw
    /// its indices once, exactly as `draw_commands` lays down.
    pub fn draw(
        &self,
        assigned_entities: &Vec<AssignedEntity>,
        meshes: &Vec<MeshBuffers>,
        render_pass: &mut RenderPass,
    )
        requires
            forall|k: int| 0 <= k < meshes@.len() ==> wf_mesh_buffers(#[trigger] meshes@[k]),
        ensures
            final(render_pass).commands@ == old(render_pass).commands@ + draw_commands(
                assigned_entities@,
                meshes@,
                None,
                0,
            ),
    {
        let ghost es = assigned_entities@;
        let mut current_mesh_handle: Option<u64> = None;
        let mut current_mesh_index_len: u32 = 0;
        let n = assigned_entities.len();
        let mut i: usize = 0;
        proof {
            assert(es.skip(0) =~= es);
        }
        while i < n
            invariant
                i <= n,
                n == es.len(),
                es == assigned_entities@,
                forall|k: int| 0 <= k < meshes@.len() ==> wf_mesh_buffers(#[trigger] meshes@[k]),
                render_pass.commands@ + draw_commands(
                    es.skip(i as int),
                    meshes@,
                    current_mesh_handle,
                    current_mesh_index_len,
                ) == old(render_pass).commands@ + draw_commands(es, meshes@, None, 0),
            decreases n - i,
        {
            let e = assigned_entities[i];
            proof {
                assert(es.skip(i as int)[0] == es[i as int]);
                assert(es.skip(i as int).drop_first() =~= es.skip(i + 1 as int));
            }
            let ghost cur0 = current_mesh_handle;
            let ghost len0 = current_mesh_index_len;
            let ghost cmds0 = render_pass.commands@;
            if e.is_visible {
                let same = match current_mesh_handle {
                    Some(m) => m == e.mesh,
                    None => false,
                };
                proof {
                    assert(same == (cur0 == Some(e.mesh)));
                }
                if !same {
                    match find_mesh(meshes, e.mesh) {
                        Some(mb) => {
                            if mb.has_vertex_buffer {
                                proof {
                                    lemma_mesh_lookup_member(meshes@, e.mesh);
                                }
                                render_pass.commands.push(
                                    RenderCommand::SetIndexBuffer {
                                        buffer: mb.index_buffer,
                                        offset: 0,
                                    },
                                );
                                render_pass.commands.push(
                                    RenderCommand::SetVertexBuffer {
                                        slot: 0,
                                        buffer: mb.vertex_buffer,
                                        offset: 0,
                                    },
                                );
                                current_mesh_index_len = (mb.index_buffer_size / 2) as u32;
                            }
                        },
                        None => {},
                    }
                    current_mesh_handle = Some(e.mesh);
                }
                let ghost bind = bind_commands(meshes@, e, cur0, len0);
                proof {
                    assert(render_pass.commands@ =~= cmds0 + bind.0);
                    assert(current_mesh_index_len == bind.1);
                    assert(current_mesh_handle == Some(e.mesh));
                }
                render_pass.commands.push(RenderCommand::SetBindGroups { entity: e.entity });
                render_pass.commands.push(
                    RenderCommand::DrawIndexed {
                        index_start: 0,
                        index_end: current_mesh_index_len,
                        base_vertex: 0,
                        instance_start: 0,
                        instance_end: 1,
                    },
                );
                proof {
                    assert(draw_commands(es.skip(i as int), meshes@, cur0, len0) == bind.0 + seq![
                        RenderCommand::SetBindGroups { entity: e.entity },
                        RenderCommand::DrawIndexed {
                            index_start: 0,
                            index_end: bind.1,
                            base_vertex: 0,
                            instance_start: 0,
                            instance_end: 1,
                        },
                    ] + draw_commands(es.skip(i + 1 as int), meshes@, Some(e.mesh), bind.1));
                    assert(render_pass.commands@ =~= cmds0 + (bind.0 + seq![
                        RenderCommand::SetBindGroups { entity: e.entity },
                        RenderCommand::DrawIndexed {
                            index_start: 0,
                            index_end: bind.1,
                            base_vertex: 0,
                            instance_start: 0,
                            instance_end: 1,
                        },
                    ]));
                    assert(cmds0 + (bind.0 + seq![
                        RenderCommand::SetBindGroups { entity: e.entity },
                        RenderCommand::DrawIndexed {
                            index_start: 0,
                            index_end: bind.1,
                            base_vertex: 0,
                            instance_start: 0,
                            instance_end: 1,
                        },
                    ]) + draw_commands(es.skip(i + 1 as int), meshes@, Some(e.mesh), bind.1) =~= cmds0
                        + draw_commands(es.skip(i as int), meshes@, cur0, len0));
                }
            }
            i = i + 1;
        }
        proof {
            assert(es.skip(n as int).len() == 0);
            assert(render_pass.commands@ + Seq::<RenderCommand>::empty() =~= render_pass.commands@);
        }
    }

    /// Record one bind-group setup call, against the given pipeline, for
    /// every visible entity assigned to it, exactly as `setup_commands`
    /// lays down.
    pub fn setup(
        &mut self,
        assigned_entities: &Vec<AssignedEntity>,
        pipeline: u64,
        renderer: &mut Renderer,
    )
        ensures
            final(renderer).commands@ == old(renderer).commands@ + setup_commands(
                assigned_entities@,
                pipeline,
            ),
    {
        let ghost es = assigned_entities@;
        let n = assigned_entities.len();
        let mut i: usize = 0;
        proof {
            assert(es.skip(0) =~= es);
        }
        while i < n
            invariant
                i <= n,
                n == es.len(),
                es == assigned_entities@,
                renderer.commands@ + setup_commands(es.skip(i as int), pipeline) == old(
                    renderer,
                ).commands@ + setup_commands(es, pipeline),
            decreases n - i,
        {
            let e = assigned_entities[i];
            proof {
                assert(es.skip(i as int)[0] == es[i as int]);
                assert(es.skip(i as int).drop_first() =~= es.skip(i + 1 as int));
            }
            let ghost cmds0 = renderer.commands@;
            if e.is_visible {
                renderer.commands.push(
                    RenderCommand::SetupEntityBindGroups { entity: e.entity, pipeline },
                );
                proof {
                    assert(cmds0 + seq![
                        RenderCommand::SetupEntityBindGroups { entity: e.entity, pipeline },
                    ] + setup_commands(es.skip(i + 1 as int), pipeline) =~= cmds0 + setup_commands(
                        es.skip(i as int),
                        pipeline,
                    ));
                }
            }
            i = i + 1;
        }
        proof {
            assert(es.skip(n as int).len() == 0);
            assert(renderer.commands@ + Seq::<RenderCommand>::empty() =~= renderer.commands@);
        }
    }

    /// The name this draw target registers under in the render graph.
    pub fn get_name(&self) -> (r: String)
        ensures
            r@ == "AssignedMeshes"@,
    {
        String::from_str("AssignedMeshes")
    }
}

} // verus!
