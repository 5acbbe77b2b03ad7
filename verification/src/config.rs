use vstd::prelude::*;

verus! {

/// Durable widget state: the milestone days whose notification already fired,
/// in the order they were recorded, and the last known widget position.
pub struct Config {
    pub notified: Vec<i64>,
    pub x: i32,
    pub y: i32,
}

/// Mathematical model of a `Config`.
#[verifier::ext_equal]
pub ghost struct ConfigV {
    pub notified: Seq<int>,
    pub x: int,
    pub y: int,
}

impl View for Config {
    type V = ConfigV;

    open spec fn view(&self) -> ConfigV {
        ConfigV {
            notified: self.notified@.map_values(|v: i64| v as int),
            x: self.x as int,
            y: self.y as int,
        }
    }
}

/// Whether every number in the model fits the machine types `Config` holds.
pub open spec fn bounded_config(c: ConfigV) -> bool {
    &&& forall|k: int|
        0 <= k < c.notified.len() ==> i64::MIN <= #[trigger] c.notified[k] <= i64::MAX
    &&& i32::MIN <= c.x <= i32::MAX
    &&& i32::MIN <= c.y <= i32::MAX
}

/// The model of the configuration substituted when no valid one is stored:
/// nothing fired yet and the position sentinel (0, 0).
pub open spec fn default_config_v() -> ConfigV {
    ConfigV { notified: Seq::empty(), x: 0, y: 0 }
}

/// The configuration substituted when the stored one is missing or malformed.
pub fn default_config() -> (c: Config)
    ensures
        c@ == default_config_v(),
{
    let c = Config { notified: Vec::new(), x: 0, y: 0 };
    proof {
        assert(c@ =~= default_config_v());
    }
    c
}

/// Horizontal and vertical distance of the default widget position from the
/// bottom-right screen corner.
pub const WIDGET_OFFSET_X: i32 = 285;

pub const WIDGET_OFFSET_Y: i32 = 150;

/// The widget position stored in `c`, or, when it is the unset sentinel
/// (0, 0), the default derived from the screen size.
pub open spec fn position_of(c: ConfigV, screen_w: int, screen_h: int) -> (int, int) {
    if c.x != 0 || c.y != 0 {
        (c.x, c.y)
    } else {
        (screen_w - 285, screen_h - 150)
    }
}

/// Returns the stored widget position, or the screen-derived default when the
/// stored position is the unset sentinel.
pub fn load_position(config: &Config, screen_w: i32, screen_h: i32) -> (r: (i32, i32))
    requires
        i32::MIN + 285 <= screen_w,
        i32::MIN + 150 <= screen_h,
    ensures
        (r.0 as int, r.1 as int) == position_of(config@, screen_w as int, screen_h as int),
{
    if config.x != 0 || config.y != 0 {
        (config.x, config.y)
    } else {
        (screen_w - WIDGET_OFFSET_X, screen_h - WIDGET_OFFSET_Y)
    }
}

/// Replaces only the position section of the configuration; the fired
/// milestones are untouched.
pub fn save_position(config: &mut Config, position: (i32, i32))
    ensures
        final(config)@.x == position.0 as int,
        final(config)@.y == position.1 as int,
        final(config)@.notified == old(config)@.notified,
{
    config.x = position.0;
    config.y = position.1;
}

} // verus!
