//! The capture source that frames and pointer observations share.

use crate::platform::interface::CaptureGeometry;
use vstd::prelude::*;

verus! {

/// The selected capture source.
#[derive(Clone, Copy, Debug, PartialEq, Eq)]
pub struct CaptureSourceSnapshot {
    /// Changes whenever another source is selected or the source is given up.
    pub generation: u64,
    pub geometry: Option<CaptureGeometry>,
    pub window_id: Option<u32>,
    /// Whether the source produces usable frames at present. A source can become unavailable
    /// for a while and stay the same source.
    pub available: bool,
}

/// The generation after `generation`; zero stands for no source and is left out.
pub open spec fn next_generation(generation: u64) -> u64 {
    if generation == u64::MAX {
        1
    } else {
        (generation + 1) as u64
    }
}

fn generation_after(generation: u64) -> (r: u64)
    ensures
        r == next_generation(generation),
{
    if generation == u64::MAX {
        1
    } else {
        generation + 1
    }
}

/// The next generation is another one.
pub proof fn law_generations_change(generation: u64)
    ensures
        next_generation(generation) != generation,
        next_generation(generation) != 0,
{
}

impl CaptureSourceSnapshot {
    /// No source was selected yet.
    pub fn new() -> (r: Self)
        ensures
            r == (CaptureSourceSnapshot {
                generation: 0,
                geometry: None,
                window_id: None,
                available: false,
            }),
    {
        CaptureSourceSnapshot { generation: 0, geometry: None, window_id: None, available: false }
    }

    /// The snapshot after a selection; it becomes available with its first frame.
    pub open spec fn selected(
        self,
        picked: Option<(CaptureGeometry, Option<u32>)>,
    ) -> CaptureSourceSnapshot {
        CaptureSourceSnapshot {
            generation: next_generation(self.generation),
            geometry: match picked {
                Some((geometry, _)) => Some(geometry),
                None => None,
            },
            window_id: match picked {
                Some((_, window_id)) => window_id,
                None => None,
            },
            available: false,
        }
    }

    /// Selects a source, or none. Returns its generation.
    pub fn select(&mut self, picked: Option<(CaptureGeometry, Option<u32>)>) -> (r: u64)
        ensures
            *final(self) == old(self).selected(picked),
            r == final(self).generation,
    {
        self.generation = generation_after(self.generation);
        self.available = false;
        match picked {
            Some((geometry, window_id)) => {
                self.geometry = Some(geometry);
                self.window_id = window_id;
            },
            None => {
                self.geometry = None;
                self.window_id = None;
            },
        }
        self.generation
    }

    /// The snapshot after the source of a generation was given up.
    pub open spec fn released(self, generation: u64) -> CaptureSourceSnapshot {
        if self.generation == generation {
            CaptureSourceSnapshot {
                generation: next_generation(generation),
                geometry: None,
                window_id: None,
                available: false,
            }
        } else {
            self
        }
    }

    /// Gives up the source of a generation. Returns the generation that its holder has after
    /// that.
    pub fn release(&mut self, generation: u64) -> (r: u64)
        ensures
            *final(self) == old(self).released(generation),
            r == (if old(self).generation == generation {
                next_generation(generation)
            } else {
                generation
            }),
    {
        if self.generation != generation {
            return generation;
        }
        self.generation = generation_after(self.generation);
        self.geometry = None;
        self.window_id = None;
        self.available = false;
        self.generation
    }

    /// The snapshot after a frame of a generation.
    pub open spec fn with_frame(
        self,
        generation: u64,
        geometry: CaptureGeometry,
    ) -> CaptureSourceSnapshot {
        if self.generation == generation {
            CaptureSourceSnapshot { geometry: Some(geometry), available: true, ..self }
        } else {
            self
        }
    }

    /// A frame of a generation arrived, which shows the area `geometry`.
    pub fn update_source_from_frame(&mut self, generation: u64, geometry: CaptureGeometry)
        ensures
            *final(self) == old(self).with_frame(generation, geometry),
    {
        if self.generation == generation {
            self.geometry = Some(geometry);
            self.available = true;
        }
    }

    /// The snapshot after a source became available or unavailable.
    pub open spec fn with_availability(
        self,
        generation: u64,
        available: bool,
    ) -> CaptureSourceSnapshot {
        if self.generation == generation {
            CaptureSourceSnapshot { available, ..self }
        } else {
            self
        }
    }

    /// The source of a generation became available or unavailable.
    pub fn set_source_available(&mut self, generation: u64, available: bool)
        ensures
            *final(self) == old(self).with_availability(generation, available),
    {
        if self.generation == generation {
            self.available = available;
        }
    }

    /// The snapshot after its window moved.
    pub open spec fn with_origin(
        self,
        generation: u64,
        left: i32,
        top: i32,
    ) -> CaptureSourceSnapshot {
        if self.generation == generation && self.geometry is Some {
            CaptureSourceSnapshot {
                geometry: Some(CaptureGeometry { left, top, ..self.geometry->0 }),
                ..self
            }
        } else {
            self
        }
    }

    /// The window of a generation moved.
    pub fn update_shared_origin(&mut self, generation: u64, left: i32, top: i32)
        ensures
            *final(self) == old(self).with_origin(generation, left, top),
    {
        if self.generation == generation {
            if let Some(geometry) = self.geometry {
                self.geometry = Some(CaptureGeometry { left, top, ..geometry });
            }
        }
    }
}

/// Nothing that happens to an earlier source reaches the source that is selected now.
pub proof fn law_earlier_sources_change_nothing(
    now: CaptureSourceSnapshot,
    generation: u64,
    geometry: CaptureGeometry,
    available: bool,
    left: i32,
    top: i32,
)
    requires
        now.generation != generation,
    ensures
        now.with_frame(generation, geometry) == now,
        now.with_availability(generation, available) == now,
        now.with_origin(generation, left, top) == now,
        now.released(generation) == now,
{
}

/// What was observed of a source before a new selection, or before it was given up, belongs to
/// another generation.
pub proof fn law_new_sources_have_new_generations(
    before: CaptureSourceSnapshot,
    picked: Option<(CaptureGeometry, Option<u32>)>,
)
    ensures
        before.selected(picked).generation != before.generation,
        before.released(before.generation).generation != before.generation,
        !before.selected(picked).available,
        !before.released(before.generation).available,
{
}

/// A frame of the selected source makes it available, with the area of the frame; a move changes
/// only where its area lies, where it has one; availability changes nothing else.
pub proof fn law_frames_and_moves_change_the_source(
    now: CaptureSourceSnapshot,
    geometry: CaptureGeometry,
    available: bool,
    left: i32,
    top: i32,
)
    ensures
        ({
            let framed = now.with_frame(now.generation, geometry);
            &&& framed.available && framed.geometry == Some(geometry)
            &&& framed.window_id == now.window_id && framed.generation == now.generation
        }),
        ({
            let set = now.with_availability(now.generation, available);
            &&& set.available == available && set.geometry == now.geometry
            &&& set.window_id == now.window_id && set.generation == now.generation
        }),
        ({
            let moved = now.with_origin(now.generation, left, top);
            &&& moved.available == now.available && moved.window_id == now.window_id
            &&& moved.generation == now.generation
            &&& moved.geometry is Some == now.geometry is Some
            &&& now.geometry is Some ==> moved.geometry->0.left == left && moved.geometry->0.top
                == top && moved.geometry->0.width == now.geometry->0.width
                && moved.geometry->0.height == now.geometry->0.height
        }),
{
}

/// A selected source has what was picked; one that was given up has nothing.
pub proof fn law_selections_replace_the_source(
    now: CaptureSourceSnapshot,
    geometry: CaptureGeometry,
    window_id: Option<u32>,
)
    ensures
        now.selected(Some((geometry, window_id))).geometry == Some(geometry),
        now.selected(Some((geometry, window_id))).window_id == window_id,
        now.selected(None).geometry is None && now.selected(None).window_id is None,
        now.released(now.generation).geometry is None && now.released(
            now.generation,
        ).window_id is None,
        now.generation < u64::MAX ==> now.selected(None).generation == now.generation + 1
            && now.released(now.generation).generation == now.generation + 1,
        now.generation == u64::MAX ==> now.selected(None).generation == 1 && now.released(
            now.generation,
        ).generation == 1,
{
}

} // verus!
