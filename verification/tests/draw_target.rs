//! The assigned-meshes draw target's recorded command sequences.

use bevy_property::assigned_meshes_draw_target::AssignedEntity;
use bevy_property::assigned_meshes_draw_target::AssignedMeshesDrawTarget;
use bevy_property::assigned_meshes_draw_target::MeshBuffers;
use bevy_property::assigned_meshes_draw_target::RenderCommand;
use bevy_property::assigned_meshes_draw_target::RenderPass;
use bevy_property::assigned_meshes_draw_target::Renderer;

fn mesh(handle: u64, vertex_buffer: u64, index_buffer: u64, index_buffer_size: u64) -> MeshBuffers {
    MeshBuffers {
        mesh: handle,
        has_vertex_buffer: true,
        vertex_buffer,
        index_buffer,
        index_buffer_size,
    }
}

fn entity(id: u64, is_visible: bool, mesh: u64) -> AssignedEntity {
    AssignedEntity { entity: id, is_visible, mesh }
}

fn draw_indexed(index_end: u32) -> RenderCommand {
    RenderCommand::DrawIndexed {
        index_start: 0,
        index_end,
        base_vertex: 0,
        instance_start: 0,
        instance_end: 1,
    }
}

#[test]
fn draw_binds_once_per_mesh_run() {
    let target = AssignedMeshesDrawTarget;
    let entities = vec![entity(1, true, 7), entity(2, true, 7), entity(3, true, 8)];
    let meshes = vec![mesh(7, 100, 200, 12), mesh(8, 101, 201, 6)];
    let mut pass = RenderPass { commands: Vec::new() };
    target.draw(&entities, &meshes, &mut pass);
    assert_eq!(
        pass.commands,
        vec![
            RenderCommand::SetIndexBuffer { buffer: 200, offset: 0 },
            RenderCommand::SetVertexBuffer { slot: 0, buffer: 100, offset: 0 },
            RenderCommand::SetBindGroups { entity: 1 },
            draw_indexed(6),
            RenderCommand::SetBindGroups { entity: 2 },
            draw_indexed(6),
            RenderCommand::SetIndexBuffer { buffer: 201, offset: 0 },
            RenderCommand::SetVertexBuffer { slot: 0, buffer: 101, offset: 0 },
            RenderCommand::SetBindGroups { entity: 3 },
            draw_indexed(3),
        ]
    );
}

#[test]
fn draw_skips_invisible_entities() {
    let target = AssignedMeshesDrawTarget;
    let entities = vec![entity(1, false, 7), entity(2, true, 7)];
    let meshes = vec![mesh(7, 100, 200, 4)];
    let mut pass = RenderPass { commands: Vec::new() };
    target.draw(&entities, &meshes, &mut pass);
    assert_eq!(
        pass.commands,
        vec![
            RenderCommand::SetIndexBuffer { buffer: 200, offset: 0 },
            RenderCommand::SetVertexBuffer { slot: 0, buffer: 100, offset: 0 },
            RenderCommand::SetBindGroups { entity: 2 },
            draw_indexed(2),
        ]
    );
}

#[test]
fn draw_without_vertex_buffer_still_draws_with_stale_count() {
    let target = AssignedMeshesDrawTarget;
    let entities = vec![entity(1, true, 9)];
    let meshes = vec![MeshBuffers {
        mesh: 9,
        has_vertex_buffer: false,
        vertex_buffer: 0,
        index_buffer: 0,
        index_buffer_size: 0,
    }];
    let mut pass = RenderPass { commands: Vec::new() };
    target.draw(&entities, &meshes, &mut pass);
    assert_eq!(
        pass.commands,
        vec![RenderCommand::SetBindGroups { entity: 1 }, draw_indexed(0)]
    );
}

#[test]
fn draw_with_no_assignments_records_nothing() {
    let target = AssignedMeshesDrawTarget;
    let entities = Vec::new();
    let meshes = vec![mesh(7, 100, 200, 4)];
    let mut pass = RenderPass { commands: Vec::new() };
    target.draw(&entities, &meshes, &mut pass);
    assert_eq!(pass.commands, vec![]);
}

#[test]
fn setup_touches_only_visible_entities() {
    let mut target = AssignedMeshesDrawTarget;
    let entities = vec![entity(1, true, 7), entity(2, false, 7), entity(3, true, 8)];
    let mut renderer = Renderer { commands: Vec::new() };
    target.setup(&entities, 42, &mut renderer);
    assert_eq!(
        renderer.commands,
        vec![
            RenderCommand::SetupEntityBindGroups { entity: 1, pipeline: 42 },
            RenderCommand::SetupEntityBindGroups { entity: 3, pipeline: 42 },
        ]
    );
}

#[test]
fn get_name_names_the_draw_target() {
    let target = AssignedMeshesDrawTarget;
    assert_eq!(target.get_name(), "AssignedMeshes");
}
