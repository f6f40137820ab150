use vstd::prelude::*;

verus! {

/// Number of values in the uniform block: three 4x4 matrices and four more.
pub const UNIFORM_LEN: usize = 52;

/// Size of the drawing surface in pixels, never below one by one.
#[derive(PartialEq, Eq, Structural, Clone, Copy, Debug)]
pub struct Viewport {
    pub width: u32,
    pub height: u32,
}

pub open spec fn at_least_one(d: u32) -> u32 {
    if d == 0 {
        1
    } else {
        d
    }
}

impl Viewport {
    pub open spec fn wf(&self) -> bool {
        self.width >= 1 && self.height >= 1
    }

    /// A viewport of the given size, each side raised to at least one.
    pub fn new(width: u32, height: u32) -> (r: Viewport)
        ensures
            r.wf(),
            r.width == at_least_one(width),
            r.height == at_least_one(height),
    {
        Viewport { width: clamp_dimension(width), height: clamp_dimension(height) }
    }

    /// Takes a new size, each side raised to at least one; a size of zero
    /// is no error.
    pub fn resize(&mut self, new_size: (u32, u32))
        ensures
            final(self).wf(),
            final(self).width == at_least_one(new_size.0),
            final(self).height == at_least_one(new_size.1),
    {
        self.width = clamp_dimension(new_size.0);
        self.height = clamp_dimension(new_size.1);
    }
}

/// One side of a surface, raised to at least one pixel.
pub fn clamp_dimension(d: u32) -> (r: u32)
    ensures
        r == at_least_one(d),
        r >= 1,
{
    if d == 0 {
        1
    } else {
        d
    }
}

/// What came of asking the surface for the next image to draw into.
#[derive(PartialEq, Eq, Structural, Clone, Copy, Debug)]
pub enum AcquireOutcome {
    Acquired,
    Timeout,
    Outdated,
    Lost,
    OutOfMemory,
}

/// What the renderer does with this frame.
#[derive(PartialEq, Eq, Structural, Clone, Copy, Debug)]
pub enum FrameAction {
    /// Draw into the acquired image and present it.
    Draw,
    /// Skip this frame and try again on the next.
    Skip,
    /// The surface no longer matches the window: configure it again and
    /// skip this frame.
    Reconfigure,
}

pub open spec fn action_for(o: AcquireOutcome) -> FrameAction {
    match o {
        AcquireOutcome::Acquired => FrameAction::Draw,
        AcquireOutcome::Outdated | AcquireOutcome::Lost => FrameAction::Reconfigure,
        AcquireOutcome::Timeout | AcquireOutcome::OutOfMemory => FrameAction::Skip,
    }
}

/// Decides a frame from the outcome of acquiring its image; no outcome
/// stops the loop.
pub fn frame_action(o: AcquireOutcome) -> (r: FrameAction)
    ensures
        r == action_for(o),
{
    match o {
        AcquireOutcome::Acquired => FrameAction::Draw,
        AcquireOutcome::Outdated | AcquireOutcome::Lost => FrameAction::Reconfigure,
        AcquireOutcome::Timeout | AcquireOutcome::OutOfMemory => FrameAction::Skip,
    }
}

/// A 4x4 matrix as four columns, flattened column after column.
pub open spec fn columns<T>(m: [[T; 4]; 4]) -> Seq<T> {
    m@[0]@ + m@[1]@ + m@[2]@ + m@[3]@
}

/// The uniform block: model, view and projection matrices, column-major,
/// then the player's x and z and two reserved values.
pub open spec fn uniform_layout<T>(
    model: [[T; 4]; 4],
    view: [[T; 4]; 4],
    projection: [[T; 4]; 4],
    player_x: T,
    player_z: T,
    reserved: T,
) -> Seq<T> {
    columns(model) + columns(view) + columns(projection) + seq![player_x, player_z, reserved, reserved]
}

fn push_columns<T: Copy>(out: &mut Vec<T>, m: &[[T; 4]; 4])
    ensures
        final(out)@ == old(out)@ + columns(*m),
{
    let mut c: usize = 0;
    while c < 4
        invariant
            c <= 4,
            out@ == old(out)@ + columns_prefix(*m, c as int),
        decreases 4 - c,
    {
        let col = m[c];
        let mut k: usize = 0;
        while k < 4
            invariant
                c < 4,
                k <= 4,
                col == m@[c as int],
                out@ == old(out)@ + columns_prefix(*m, c as int) + col@.take(k as int),
            decreases 4 - k,
        {
            out.push(col[k]);
            assert(col@.take((k + 1) as int) =~= col@.take(k as int).push(col@[k as int]));
            assert(out@ =~= old(out)@ + columns_prefix(*m, c as int) + col@.take((k + 1) as int));
            k += 1;
        }
        assert(col@.take(4) =~= col@);
        assert(out@ =~= old(out)@ + columns_prefix(*m, (c + 1) as int));
        c += 1;
    }
    proof {
        reveal_with_fuel(columns_prefix, 5);
        assert(columns_prefix(*m, 1) =~= m@[0]@);
        assert(columns_prefix(*m, 4) =~= columns(*m));
    }
}

/// The first `c` columns, flattened.
pub open spec fn columns_prefix<T>(m: [[T; 4]; 4], c: int) -> Seq<T>
    decreases c,
{
    if c <= 0 {
        seq![]
    } else {
        columns_prefix(m, c - 1) + m@[c - 1]@
    }
}

/// Packs the uniform block in the order the shader reads it.
pub fn pack_uniforms<T: Copy>(
    model: &[[T; 4]; 4],
    view: &[[T; 4]; 4],
    projection: &[[T; 4]; 4],
    player_x: T,
    player_z: T,
    reserved: T,
) -> (r: Vec<T>)
    ensures
        r@ == uniform_layout(*model, *view, *projection, player_x, player_z, reserved),
        r@.len() == UNIFORM_LEN,
{
    let mut out: Vec<T> = Vec::new();
    push_columns(&mut out, model);
    push_columns(&mut out, view);
    push_columns(&mut out, projection);
    out.push(player_x);
    out.push(player_z);
    out.push(reserved);
    out.push(reserved);
    assert(out@ =~= uniform_layout(*model, *view, *projection, player_x, player_z, reserved));
    out
}

} // verus!
