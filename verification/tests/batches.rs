use qgfx::renderer::{blank, DrawBatch, Renderer, TexType, Vertex, VBO_SIZE};

fn vertex(tag: u32, tex_type: TexType, tex_ix: usize) -> Vertex {
    Vertex {
        pos: [(tag as f32).to_bits(), 1.0f32.to_bits()],
        tex_coords: [3, 5],
        col: [1.0f32.to_bits(); 4],
        tex_type,
        tex_ix,
    }
}

fn front_tags(batch: &DrawBatch, n: usize) -> Vec<u32> {
    batch.vertices[..n].iter().map(|v| f32::from_bits(v.pos[0]) as u32).collect()
}

#[test]
fn two_resources_give_two_batches_in_submission_order() {
    let a = (TexType::Texture, 0);
    let b = (TexType::Texture, 1);
    let tags = [a, a, b, a, b];
    let packet: Vec<Vertex> =
        tags.iter().enumerate().map(|(i, k)| vertex(i as u32, k.0, k.1)).collect();
    let mut renderer = Renderer::new();
    renderer.recv_data(vec![packet]);
    let batches = renderer.waiting();
    assert_eq!(batches.len(), 2);
    assert_eq!((batches[0].tex_type, batches[0].tex_ix), a);
    assert_eq!((batches[1].tex_type, batches[1].tex_ix), b);
    assert_eq!(front_tags(&batches[0], 3), vec![0, 1, 3]);
    assert_eq!(front_tags(&batches[1], 2), vec![2, 4]);
}

#[test]
fn batches_are_filled_up_with_blank_vertices() {
    let mut renderer = Renderer::new();
    renderer.recv_data(vec![vec![vertex(1, TexType::Font, 0)]]);
    let batches = renderer.waiting();
    assert_eq!(batches.len(), 1);
    assert_eq!(batches[0].vertices.len(), VBO_SIZE);
    assert_eq!(batches[0].vertices[0], vertex(1, TexType::Font, 0));
    assert_eq!(batches[0].vertices[1], blank());
    assert_eq!(batches[0].vertices[VBO_SIZE - 1], blank());
    let zero = blank();
    assert_eq!(f32::from_bits(zero.pos[0]), 0.0);
    assert_eq!(zero.tex_type, TexType::Texture);
    assert_eq!(zero.tex_ix, 0);
}

#[test]
fn long_batches_are_cut_at_the_capacity() {
    let packet: Vec<Vertex> =
        (0..VBO_SIZE as u32 + 10).map(|i| vertex(i, TexType::Texture, 2)).collect();
    let mut renderer = Renderer::new();
    renderer.recv_data(vec![packet]);
    let batches = renderer.waiting();
    assert_eq!(batches.len(), 1);
    assert_eq!(batches[0].vertices.len(), VBO_SIZE);
    assert_eq!(batches[0].vertices[VBO_SIZE - 1], vertex(VBO_SIZE as u32 - 1, TexType::Texture, 2));
}

#[test]
fn font_and_texture_of_one_index_are_different_resources() {
    let mut renderer = Renderer::new();
    renderer.recv_data(vec![
        vec![vertex(0, TexType::Texture, 0), vertex(1, TexType::Font, 0)],
        vec![vertex(2, TexType::Texture, 0)],
        vec![],
        vec![vertex(3, TexType::Font, 0), vertex(4, TexType::Texture, 5)],
    ]);
    let batches = renderer.waiting();
    assert_eq!(batches.len(), 3);
    assert_eq!(front_tags(&batches[0], 2), vec![0, 2]);
    assert_eq!(front_tags(&batches[1], 2), vec![1, 3]);
    assert_eq!(front_tags(&batches[2], 1), vec![4]);
    assert_eq!((batches[2].tex_type, batches[2].tex_ix), (TexType::Texture, 5));
}

#[test]
fn nothing_received_gives_no_batch() {
    let mut renderer = Renderer::new();
    renderer.recv_data(vec![vec![vertex(0, TexType::Texture, 0)]]);
    renderer.recv_data(Vec::new());
    assert_eq!(renderer.waiting().len(), 0);
}
