use vstd::prelude::*;

use crate::timeline::{DEFAULT_PIXELS_PER_DAY, MAX_PIXELS_PER_DAY, MIN_PIXELS_PER_DAY};

verus! {

/// Name and description of a theme.
#[derive(Debug)]
pub struct ThemeMeta {
    pub name: String,
    pub author: String,
    pub description: String,
    /// "dark" or "light": which base look the theme starts from.
    pub variant: String,
}

impl Default for ThemeMeta {
    /// The metadata of the built-in dark theme.
    fn default() -> (r: ThemeMeta)
        ensures
            r.name@ == "Default Dark"@,
            r.author@ == "Built-in"@,
            r.description@ == "The default dark theme."@,
            r.variant@ == "dark"@,
    {
        ThemeMeta {
            name: "Default Dark".to_owned(),
            author: "Built-in".to_owned(),
            description: "The default dark theme.".to_owned(),
            variant: "dark".to_owned(),
        }
    }
}

/// Zoom levels of the chart, in pixels per day, and the range over which
/// rows scale with zoom, in percent.
#[derive(Debug, Clone, Copy, PartialEq, Eq, Structural)]
pub struct ThemeZoom {
    pub default_pixels_per_day: i64,
    pub min_pixels_per_day: i64,
    pub max_pixels_per_day: i64,
    pub vertical_scale_min_percent: i64,
    pub vertical_scale_max_percent: i64,
}

impl Default for ThemeZoom {
    /// The zoom settings that the viewport uses.
    fn default() -> (r: ThemeZoom)
        ensures
            r.default_pixels_per_day == DEFAULT_PIXELS_PER_DAY,
            r.min_pixels_per_day == MIN_PIXELS_PER_DAY,
            r.max_pixels_per_day == MAX_PIXELS_PER_DAY,
            r.vertical_scale_min_percent == 80,
            r.vertical_scale_max_percent == 190,
    {
        ThemeZoom {
            default_pixels_per_day: DEFAULT_PIXELS_PER_DAY,
            min_pixels_per_day: MIN_PIXELS_PER_DAY,
            max_pixels_per_day: MAX_PIXELS_PER_DAY,
            vertical_scale_min_percent: 80,
            vertical_scale_max_percent: 190,
        }
    }
}

/// The parts of a theme that the chart engine reads.
#[derive(Debug)]
pub struct ThemeDefinition {
    pub meta: ThemeMeta,
    pub zoom: ThemeZoom,
}

/// Persisted user settings.
#[derive(Debug)]
pub struct AppSettings {
    pub active_theme: String,
}

impl Default for AppSettings {
    /// Settings that select the built-in dark theme.
    fn default() -> (r: AppSettings)
        ensures
            r.active_theme@ == "Default Dark"@,
    {
        AppSettings { active_theme: "Default Dark".to_owned() }
    }
}

/// Whether the theme starts from the light look.
pub fn is_light(theme: &ThemeDefinition) -> (r: bool)
    ensures
        r == (theme.meta.variant@ == "light"@),
{
    let light = "light".to_owned();
    theme.meta.variant == light
}

/// The zoom settings of the theme.
pub fn zoom(theme: &ThemeDefinition) -> (r: ThemeZoom)
    ensures
        r == theme.zoom,
{
    theme.zoom
}

/// How much rows grow with zoom, in percent: the zoom level relative to
/// the theme's default, kept within the theme's scale range.
pub fn vertical_zoom_percent(z: &ThemeZoom, pixels_per_day: i64) -> (r: i64)
    requires
        z.default_pixels_per_day > 0,
        0 <= pixels_per_day <= 0x1_0000_0000,
        z.vertical_scale_min_percent <= z.vertical_scale_max_percent,
    ensures
        r == ({
            let raw = (pixels_per_day * 100) as int / (z.default_pixels_per_day as int);
            if raw < z.vertical_scale_min_percent {
                z.vertical_scale_min_percent as int
            } else if raw > z.vertical_scale_max_percent {
                z.vertical_scale_max_percent as int
            } else {
                raw
            }
        }),
{
    let raw = pixels_per_day * 100 / z.default_pixels_per_day;
    if raw < z.vertical_scale_min_percent {
        z.vertical_scale_min_percent
    } else if raw > z.vertical_scale_max_percent {
        z.vertical_scale_max_percent
    } else {
        raw
    }
}

} // verus!
