//! The floating window: the shapes it takes, the part it plays, and where it
//! goes.
//!
//! The window is one, its parts are two, and each remembers its own place.

use vstd::prelude::*;

use crate::float::Double;

verus! {

/// The shapes that the floating window takes.
#[derive(Debug, Clone, Copy, PartialEq, Eq, Structural)]
pub enum HudShape {
    /// The horizontal bar of the dictation.
    Bar,
    /// The upright pill of the reading.
    Column,
    /// The same pill, with the guided caption open beside it.
    ColumnCaptions,
}

/// What the window is being used for.
#[derive(Debug, Clone, Copy, PartialEq, Eq, Structural)]
pub enum HudRole {
    Dictation,
    Reading,
}

impl HudShape {
    /// The part that a shape belongs to.
    pub open spec fn part(self) -> HudRole {
        match self {
            HudShape::Bar => HudRole::Dictation,
            HudShape::Column => HudRole::Reading,
            HudShape::ColumnCaptions => HudRole::Reading,
        }
    }

    /// Width and height, in logical pixels.
    pub open spec fn extent(self) -> (u32, u32) {
        match self {
            HudShape::Bar => (360, 136),
            HudShape::Column => (136, 320),
            HudShape::ColumnCaptions => (504, 320),
        }
    }

    /// The width as a floating-point number.
    pub open spec fn width_number(self) -> Double {
        match self {
            HudShape::Bar => Double { bits: 0x4076_8000_0000_0000 },
            HudShape::Column => Double { bits: 0x4061_0000_0000_0000 },
            HudShape::ColumnCaptions => Double { bits: 0x407f_8000_0000_0000 },
        }
    }

    /// The part that a shape belongs to.
    pub fn role(self) -> (role: HudRole)
        ensures
            role == self.part(),
            role == HudRole::Dictation <==> self == HudShape::Bar,
    {
        match self {
            HudShape::Bar => HudRole::Dictation,
            HudShape::Column | HudShape::ColumnCaptions => HudRole::Reading,
        }
    }

    /// Width and height, in logical pixels. Both shapes of the reading are
    /// equally high, so that opening the caption moves nothing up or down.
    pub fn size(self) -> (size: (u32, u32))
        ensures
            size == self.extent(),
            self == HudShape::Bar ==> size == (360u32, 136u32),
            self == HudShape::Column ==> size == (136u32, 320u32),
            self == HudShape::ColumnCaptions ==> size == (504u32, 320u32),
    {
        match self {
            HudShape::Bar => (360, 136),
            HudShape::Column => (136, 320),
            HudShape::ColumnCaptions => (504, 320),
        }
    }

    /// The width as a floating-point number.
    pub fn width(self) -> (width: Double)
        ensures
            width == self.width_number(),
    {
        match self {
            HudShape::Bar => Double { bits: 0x4076_8000_0000_0000 },
            HudShape::Column => Double { bits: 0x4061_0000_0000_0000 },
            HudShape::ColumnCaptions => Double { bits: 0x407f_8000_0000_0000 },
        }
    }

    /// The shape of the reading, with the caption open or closed.
    pub open spec fn reading_shape(captions: bool) -> HudShape {
        if captions {
            HudShape::ColumnCaptions
        } else {
            HudShape::Column
        }
    }

    /// The shape of the reading, with the caption open or closed.
    pub fn of_reading(captions: bool) -> (shape: HudShape)
        ensures
            shape == HudShape::reading_shape(captions),
            captions ==> shape == HudShape::ColumnCaptions,
            !captions ==> shape == HudShape::Column,
    {
        if captions {
            HudShape::ColumnCaptions
        } else {
            HudShape::Column
        }
    }
}

/// For how long after a movement of our own, in nanoseconds, what the system
/// tells of the window is taken to come from it.
pub const SILENCIO_APOS_MOVER: u64 = 450_000_000;

/// What the app remembers of the window: the part it plays, as a number where
/// zero is none yet, and until when a movement is our own doing.
#[derive(Debug, Clone, Copy, PartialEq, Eq)]
pub struct HudMemory {
    pub papel_atual: u8,
    pub movimento_nosso_ate: Option<u64>,
}

impl HudMemory {
    /// The part that the stored number stands for.
    pub open spec fn part(self) -> Option<HudRole> {
        if self.papel_atual == 1 {
            Some(HudRole::Dictation)
        } else if self.papel_atual == 2 {
            Some(HudRole::Reading)
        } else {
            None
        }
    }

    /// Is a movement seen at `now` our own doing?
    pub open spec fn ours(self, now: u64) -> bool {
        self.movimento_nosso_ate is Some && now < self.movimento_nosso_ate->0
    }

    /// No part yet, and nothing moved.
    pub fn new() -> (memory: HudMemory)
        ensures
            memory.part() is None,
            memory.movimento_nosso_ate is None,
    {
        HudMemory { papel_atual: 0, movimento_nosso_ate: None }
    }

    pub fn current_role(&self) -> (role: Option<HudRole>)
        ensures
            role == self.part(),
            role == Some(HudRole::Dictation) <==> self.papel_atual == 1,
            role == Some(HudRole::Reading) <==> self.papel_atual == 2,
    {
        match self.papel_atual {
            1 => Some(HudRole::Dictation),
            2 => Some(HudRole::Reading),
            _ => None,
        }
    }

    /// Forgets the part, so that the next shape does not inherit the place.
    pub fn forget_role(&mut self)
        ensures
            final(self).part() is None,
            final(self).movimento_nosso_ate == old(self).movimento_nosso_ate,
    {
        self.papel_atual = 0;
    }

    pub fn set_current_role(&mut self, papel: HudRole)
        ensures
            final(self).part() == Some(papel),
            final(self).movimento_nosso_ate == old(self).movimento_nosso_ate,
    {
        self.papel_atual = match papel {
            HudRole::Dictation => 1,
            HudRole::Reading => 2,
        };
    }

    /// The app is about to move the window.
    pub fn marcar_movimento_programado(&mut self, now: u64)
        requires
            now + SILENCIO_APOS_MOVER <= u64::MAX,
        ensures
            final(self).movimento_nosso_ate == Some((now + SILENCIO_APOS_MOVER) as u64),
            final(self).movimento_nosso_ate->0 == now + 450_000_000,
            final(self).papel_atual == old(self).papel_atual,
    {
        self.movimento_nosso_ate = Some(now + SILENCIO_APOS_MOVER);
    }

    /// Did the app cause the movement that was just told of?
    pub fn movement_is_ours(&self, now: u64) -> (ours: bool)
        ensures
            ours == self.ours(now),
            ours <==> self.movimento_nosso_ate is Some && now < self.movimento_nosso_ate->0,
    {
        match self.movimento_nosso_ate {
            Some(limite) => now < limite,
            None => false,
        }
    }

    /// Whose place a movement of the window changes: none where the app moved it,
    /// where it is hidden, or where it plays no part yet.
    pub fn dragged(&self, now: u64, visible: bool) -> (role: Option<HudRole>)
        ensures
            role == if self.ours(now) || !visible {
                None
            } else {
                self.part()
            },
            role is Some ==> visible && !(self.movimento_nosso_ate is Some && now
                < self.movimento_nosso_ate->0),
    {
        if self.movement_is_ours(now) || !visible {
            None
        } else {
            self.current_role()
        }
    }

    /// Forgetting the places: the shape in which a window on the screen goes back
    /// to where it came from. It keeps its part; a hidden one needs nothing.
    pub fn reset_position(&mut self, visible: bool, captions: bool) -> (shape: Option<HudShape>)
        ensures
            shape == match (visible, old(self).part()) {
                (true, Some(HudRole::Dictation)) => Some(HudShape::Bar),
                (true, Some(HudRole::Reading)) => Some(HudShape::reading_shape(captions)),
                _ => None,
            },
            shape is Some ==> final(self).part() is None,
            shape is None ==> *final(self) == *old(self),
            final(self).movimento_nosso_ate == old(self).movimento_nosso_ate,
    {
        if !visible {
            return None;
        }
        let forma = match self.current_role() {
            Some(HudRole::Dictation) => HudShape::Bar,
            Some(HudRole::Reading) => HudShape::of_reading(captions),
            None => return None,
        };
        self.forget_role();
        Some(forma)
    }
}

/// Where the place of the window comes from.
#[derive(Debug, Clone, Copy, PartialEq, Eq, Structural)]
pub enum Place {
    /// The right edge stays where it is: the caption grows to the left.
    RightEdge,
    /// The window stays where it is.
    Current,
    /// The place remembered for the part.
    Remembered,
    /// The place where the part begins.
    Default,
}

/// What is known of the window when a shape is asked for.
#[derive(Debug, Clone, Copy)]
pub struct HudWindow {
    /// Is there a monitor to place it on?
    pub monitor: bool,
    pub visible: bool,
    /// Its width, where the system tells it.
    pub width: Option<Double>,
    /// Does the system tell its position?
    pub position_known: bool,
    /// Whether the middle of the window lies on a monitor at the remembered
    /// place, where one is remembered for the part of the shape.
    pub remembered_on_screen: Option<bool>,
}

/// How a shape is applied.
#[derive(Debug, Clone, Copy, PartialEq, Eq, Structural)]
pub enum ShapePlan {
    /// There is nowhere to place it: only its size changes.
    ResizeOnly,
    /// It moves, then changes its size.
    MoveFirst(Place),
    /// It changes its size, then moves.
    ResizeFirst(Place),
}

/// Where the place comes from, in order: a window on the screen in the same part
/// stays, with its right edge where its width changes; otherwise the place
/// remembered for that part, if it is on a monitor; otherwise where it begins.
pub open spec fn place_for(memory: HudMemory, shape: HudShape, window: HudWindow) -> Place {
    let here = window.visible && memory.part() == Some(shape.part()) && window.position_known;
    if here && window.width is Some && shape.width_number().apart(window.width->0) {
        Place::RightEdge
    } else if here {
        Place::Current
    } else if window.remembered_on_screen == Some(true) {
        Place::Remembered
    } else {
        Place::Default
    }
}

/// Does the window get no wider than it is?
pub open spec fn no_wider(shape: HudShape, window: HudWindow) -> bool {
    match window.width {
        Some(width) => width.at_least(shape.width_number()),
        None => true,
    }
}

/// How a shape is applied. First comes the operation that leaves the window no
/// space that it should not have: getting smaller it moves first, growing it
/// changes its size first.
pub open spec fn plan_for(memory: HudMemory, shape: HudShape, window: HudWindow) -> ShapePlan {
    if !window.monitor {
        ShapePlan::ResizeOnly
    } else if no_wider(shape, window) {
        ShapePlan::MoveFirst(place_for(memory, shape, window))
    } else {
        ShapePlan::ResizeFirst(place_for(memory, shape, window))
    }
}

/// Decides how the window takes a shape, and remembers its part and that what the
/// system is about to tell of it is our own doing.
pub fn shape_hud(memory: &mut HudMemory, shape: HudShape, window: HudWindow, now: u64) -> (plan:
    ShapePlan)
    requires
        now + SILENCIO_APOS_MOVER <= u64::MAX,
    ensures
        plan == plan_for(*old(memory), shape, window),
        window.monitor ==> final(memory).movimento_nosso_ate->0 == now + 450_000_000,
        window.monitor ==> final(memory).papel_atual == if shape == HudShape::Bar {
            1int
        } else {
            2
        },
        window.monitor ==> final(memory).part() == Some(shape.part())
            && final(memory).movimento_nosso_ate == Some((now + SILENCIO_APOS_MOVER) as u64),
        !window.monitor ==> *final(memory) == *old(memory),
{
    if !window.monitor {
        return ShapePlan::ResizeOnly;
    }
    let papel = shape.role();
    let mesmo_papel = match memory.current_role() {
        Some(atual) => atual == papel,
        None => false,
    };
    let aqui = window.visible && mesmo_papel && window.position_known;
    let muda_largura = match window.width {
        Some(width) => shape.width().differs(width),
        None => false,
    };
    let lembrada = match window.remembered_on_screen {
        Some(na_tela) => na_tela,
        None => false,
    };
    let place = if aqui && muda_largura {
        Place::RightEdge
    } else if aqui {
        Place::Current
    } else if lembrada {
        Place::Remembered
    } else {
        Place::Default
    };
    memory.set_current_role(papel);
    memory.marcar_movimento_programado(now);
    let encolhe = match window.width {
        Some(width) => width.reaches(shape.width()),
        None => true,
    };
    if encolhe {
        ShapePlan::MoveFirst(place)
    } else {
        ShapePlan::ResizeFirst(place)
    }
}

/// Opening and closing the caption moves no edge but the left one: of a window on
/// the screen in the part of the reading, the right edge stays.
pub proof fn law_caption_keeps_right_edge(memory: HudMemory, window: HudWindow, open: bool)
    requires
        memory.part() == Some(HudRole::Reading),
        window.monitor,
        window.visible,
        window.position_known,
        window.width == Some(HudShape::reading_shape(!open).width_number()),
    ensures
        plan_for(memory, HudShape::reading_shape(open), window) == if open {
            ShapePlan::ResizeFirst(Place::RightEdge)
        } else {
            ShapePlan::MoveFirst(Place::RightEdge)
        },
{
}

/// No part inherits the place of the other: where the part changes, or none was
/// played, the window goes to the place of its own part.
pub proof fn law_parts_keep_apart(memory: HudMemory, shape: HudShape, window: HudWindow)
    requires
        memory.part() != Some(shape.part()),
    ensures
        place_for(memory, shape, window) == Place::Remembered || place_for(memory, shape, window)
            == Place::Default,
{
}

/// A place remembered on a monitor that is gone is not used.
pub proof fn law_lost_monitor_is_not_used(memory: HudMemory, shape: HudShape, window: HudWindow)
    requires
        window.remembered_on_screen != Some(true),
    ensures
        place_for(memory, shape, window) != Place::Remembered,
{
}

/// What the system tells of the window while the silence after a shape lasts is
/// nobody's preference.
pub proof fn law_own_movement_is_no_drag(memory: HudMemory, now: u64, told: u64)
    requires
        now + SILENCIO_APOS_MOVER <= u64::MAX,
        memory.movimento_nosso_ate == Some((now + SILENCIO_APOS_MOVER) as u64),
    ensures
        memory.ours(told) <==> told < now + 450_000_000,
{
}


/// The width as a floating-point number is the width in pixels: its fraction, scaled
/// by its exponent, says the same.
pub proof fn law_widths_agree(shape: HudShape)
    ensures
        ({
            let bits = shape.width_number().bits as int;
            let fraction = 0x10_0000_0000_0000 + bits % 0x10_0000_0000_0000;
            let exponent = bits / 0x10_0000_0000_0000;
            &&& exponent == 1030 || exponent == 1031
            &&& exponent == 1030 ==> fraction == shape.extent().0 * 0x2000_0000_0000
            &&& exponent == 1031 ==> fraction == shape.extent().0 * 0x1000_0000_0000
        }),
{
}

/// Both shapes of the reading are equally high, and the caption makes the window
/// wider: opening it moves nothing up or down.
pub proof fn law_captions_only_widen(shape: HudShape)
    ensures
        HudShape::reading_shape(true).extent().1 == HudShape::reading_shape(false).extent().1,
        HudShape::reading_shape(true).extent().0 > HudShape::reading_shape(false).extent().0,
        shape.part() == HudRole::Reading <==> shape == HudShape::reading_shape(true) || shape
            == HudShape::reading_shape(false),
{
}

/// Where the window goes. It stays where it is exactly if it is on the screen in the
/// part that it is to play, and the system tells where that is: by its right edge if
/// its width is known and changes. Otherwise it goes to the remembered place where
/// that is on a monitor, and to where its part begins where it is not.
pub proof fn law_where_the_window_goes(memory: HudMemory, shape: HudShape, window: HudWindow)
    ensures
        ({
            let stays = window.visible && window.position_known && memory.part() == Some(
                shape.part(),
            );
            let changes = window.width matches Some(width) && !width.is_nan() && width.rank()
                != shape.width_number().rank();
            let place = place_for(memory, shape, window);
            &&& place == Place::RightEdge <==> stays && changes
            &&& place == Place::Current <==> stays && !changes
            &&& place == Place::Remembered <==> !stays && window.remembered_on_screen == Some(true)
            &&& place == Place::Default <==> !stays && window.remembered_on_screen != Some(true)
        }),
{
}

/// The window never has space that it should not have. It changes its size first
/// exactly if it is known to be narrower than its new shape; it moves first in every
/// other case; and where there is no monitor, it does not move at all.
pub proof fn law_no_space_too_many(memory: HudMemory, shape: HudShape, window: HudWindow)
    requires
        window.width matches Some(width) ==> !width.is_nan(),
    ensures
        ({
            let plan = plan_for(memory, shape, window);
            let grows = window.width matches Some(width) && width.rank()
                < shape.width_number().rank();
            &&& plan is ResizeOnly <==> !window.monitor
            &&& plan is ResizeFirst <==> window.monitor && grows
            &&& plan is MoveFirst <==> window.monitor && !grows
            &&& plan matches ShapePlan::MoveFirst(place) ==> place == place_for(
                memory,
                shape,
                window,
            )
            &&& plan matches ShapePlan::ResizeFirst(place) ==> place == place_for(
                memory,
                shape,
                window,
            )
        }),
{
}

} // verus!
