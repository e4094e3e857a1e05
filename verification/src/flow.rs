//! Pausing and leaving a level for the main menu.

use vstd::prelude::*;

verus! {

/// Pause flag, physics and cursor as set together when Escape is pressed.
#[derive(Clone, Copy, Debug, PartialEq, Eq, Structural)]
pub struct PauseSettings {
    pub paused: bool,
    /// Whether the physics and query pipelines run.
    pub physics_active: bool,
    pub cursor_locked: bool,
    pub cursor_visible: bool,
}

/// The settings that go with a pause flag: a paused game stops physics and
/// frees and shows the cursor; a running game runs physics and locks and
/// hides the cursor.
pub open spec fn settings_for(paused: bool) -> PauseSettings {
    PauseSettings {
        paused,
        physics_active: !paused,
        cursor_locked: !paused,
        cursor_visible: paused,
    }
}

/// What the Escape key does this frame: `None` when it was not just
/// pressed (nothing changes), else the pause flag flips and physics and
/// cursor follow it.
pub fn toggle_pause(paused: bool, escape_pressed: bool) -> (res: Option<PauseSettings>)
    ensures
        !escape_pressed ==> res is None,
        escape_pressed ==> res == Some(settings_for(!paused)),
{
    if escape_pressed {
        let now = !paused;
        if now {
            Some(PauseSettings {
                paused: now,
                physics_active: false,
                cursor_locked: false,
                cursor_visible: true,
            })
        } else {
            Some(PauseSettings {
                paused: now,
                physics_active: true,
                cursor_locked: true,
                cursor_visible: false,
            })
        }
    } else {
        None
    }
}

/// Escape pressed twice brings the pause flag, physics and cursor back to
/// where the first press found them, and each press sets all of them from
/// the new flag alone.
pub proof fn lemma_pause_twice(paused: bool)
    ensures
        settings_for(!!paused) == settings_for(paused),
        settings_for(!paused).physics_active == paused,
        settings_for(!paused).cursor_visible == !paused,
{
}

/// The window the player leaves for the main menu from.
#[derive(Clone, Copy, Debug, PartialEq, Eq, Structural)]
pub enum MenuExit {
    /// "Eliri al menuo" in the pause menu.
    FromPause,
    /// "En menuon" after winning.
    AfterWin,
    /// "En menuon" after the game is over.
    AfterGameOver,
}

/// What leaving a level for the main menu does.
#[derive(Clone, Copy, Debug, PartialEq, Eq, Structural)]
pub struct MenuReturn {
    /// The main menu opens.
    pub open_menu: bool,
    /// The physics and query pipelines run again.
    pub physics_active: bool,
    /// The current level, its scene and its meshes are forgotten.
    pub forget_level: bool,
    /// The pause flag is cleared.
    pub unpause: bool,
    /// The player's points are added to the saved score.
    pub save_points: bool,
    /// The player's points are set to zero.
    pub reset_points: bool,
}

/// What an exit to the main menu does: every exit opens the menu, sets the
/// physics running and forgets the level; besides, the pause exit clears
/// the pause flag, a win adds the points to the saved score, a lost game
/// resets the points.
pub fn return_to_menu(exit: MenuExit) -> (res: MenuReturn)
    ensures
        res.open_menu,
        res.physics_active,
        res.forget_level,
        res.unpause == (exit == MenuExit::FromPause),
        res.save_points == (exit == MenuExit::AfterWin),
        res.reset_points == (exit == MenuExit::AfterGameOver),
{
    match exit {
        MenuExit::FromPause => MenuReturn { open_menu: true, physics_active: true, forget_level: true, unpause: true, save_points: false, reset_points: false },
        MenuExit::AfterWin => MenuReturn { open_menu: true, physics_active: true, forget_level: true, unpause: false, save_points: true, reset_points: false },
        MenuExit::AfterGameOver => MenuReturn { open_menu: true, physics_active: true, forget_level: true, unpause: false, save_points: false, reset_points: true },
    }
}

/// How the black overlay of the splash screen moves this frame.
#[derive(Clone, Copy, Debug, PartialEq, Eq, Structural)]
pub enum Overlay {
    /// It becomes more transparent (the header image shows).
    Lighten,
    /// It becomes more opaque.
    Darken,
}

/// What the splash screen does this frame.
#[derive(Clone, Copy, Debug, PartialEq, Eq, Structural)]
pub struct SplashStep {
    /// How the overlay moves, if it does.
    pub overlay: Option<Overlay>,
    /// A three-second hold timer is started.
    pub start_timer: bool,
    /// Whether the overlay is still in its lightening phase afterwards.
    pub faded: bool,
    /// The game moves on to the main menu.
    pub to_menu: bool,
}

/// One frame of the splash screen. While lightening (`faded`): the overlay
/// lightens while it is visible, else a hold timer starts; once a hold
/// timer has finished (the timers tick only in this phase) the darkening
/// phase begins. While darkening: the overlay darkens until opaque, then
/// the main menu opens. `visible` is "alpha > 0", `translucent` "alpha < 1".
pub fn splash_step(faded: bool, visible: bool, translucent: bool, timer_finished: bool) -> (res: SplashStep)
    ensures
        faded ==> res == (SplashStep {
            overlay: if visible { Some(Overlay::Lighten) } else { None },
            start_timer: !visible,
            faded: !timer_finished,
            to_menu: false,
        }),
        !faded ==> res == (SplashStep {
            overlay: if translucent { Some(Overlay::Darken) } else { None },
            start_timer: false,
            faded: false,
            to_menu: !translucent,
        }),
{
    if faded {
        let overlay = if visible { Some(Overlay::Lighten) } else { None };
        SplashStep { overlay, start_timer: !visible, faded: !timer_finished, to_menu: false }
    } else {
        let overlay = if translucent { Some(Overlay::Darken) } else { None };
        SplashStep { overlay, start_timer: false, faded: false, to_menu: !translucent }
    }
}

} // verus!
