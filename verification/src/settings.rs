//! The settings that outlive a session.

use crate::error::{fails_as, BlitzError, ErrorModel, Result};
use crate::text::owned;
use vstd::prelude::*;

verus! {

pub const MIN_ZOOM_PERCENT: u16 = 10;

pub const MAX_ZOOM_PERCENT: u16 = 500;

#[derive(Debug, Eq, PartialEq)]
pub struct EditorSettings {
    pub word_wrap: bool,
    pub status_bar_visible: bool,
    pub font_family: String,
    pub font_style: FontStyle,
    pub font_size: u16,
    pub script: String,
    pub zoom_percent: u16,
}

#[derive(Clone, Copy, Debug, Eq, PartialEq, Structural)]
pub enum FontStyle {
    Regular,
    Italic,
    Bold,
    BoldItalic,
}

pub open spec fn style_label(style: FontStyle) -> Seq<char> {
    match style {
        FontStyle::Regular => "Regular"@,
        FontStyle::Italic => "Italic"@,
        FontStyle::Bold => "Bold"@,
        FontStyle::BoldItalic => "Bold Italic"@,
    }
}

impl FontStyle {
    pub fn label(self) -> (label: &'static str)
        ensures
            label@ == style_label(self),
    {
        match self {
            FontStyle::Regular => "Regular",
            FontStyle::Italic => "Italic",
            FontStyle::Bold => "Bold",
            FontStyle::BoldItalic => "Bold Italic",
        }
    }
}

/// Settings as a mathematical value.
pub struct SettingsModel {
    pub word_wrap: bool,
    pub status_bar_visible: bool,
    pub font_family: Seq<char>,
    pub font_style: FontStyle,
    pub font_size: u16,
    pub script: Seq<char>,
    pub zoom_percent: u16,
}

impl View for EditorSettings {
    type V = SettingsModel;

    open spec fn view(&self) -> SettingsModel {
        SettingsModel {
            word_wrap: self.word_wrap,
            status_bar_visible: self.status_bar_visible,
            font_family: self.font_family@,
            font_style: self.font_style,
            font_size: self.font_size,
            script: self.script@,
            zoom_percent: self.zoom_percent,
        }
    }
}

pub open spec fn default_settings() -> SettingsModel {
    SettingsModel {
        word_wrap: false,
        status_bar_visible: true,
        font_family: "Consolas"@,
        font_style: FontStyle::Regular,
        font_size: 11,
        script: "Western"@,
        zoom_percent: 100,
    }
}

impl Default for EditorSettings {
    fn default() -> (settings: Self)
        ensures
            settings@ == default_settings(),
    {
        EditorSettings {
            word_wrap: false,
            status_bar_visible: true,
            font_family: owned("Consolas"),
            font_style: FontStyle::Regular,
            font_size: 11,
            script: owned("Western"),
            zoom_percent: 100,
        }
    }
}

impl Clone for EditorSettings {
    fn clone(&self) -> (copy: Self)
        ensures
            copy@ == self@,
    {
        EditorSettings {
            word_wrap: self.word_wrap,
            status_bar_visible: self.status_bar_visible,
            font_family: self.font_family.clone(),
            font_style: self.font_style,
            font_size: self.font_size,
            script: self.script.clone(),
            zoom_percent: self.zoom_percent,
        }
    }
}

/// A zoom within its limits.
pub open spec fn clamped_zoom(zoom_percent: u16) -> u16 {
    if zoom_percent < MIN_ZOOM_PERCENT {
        MIN_ZOOM_PERCENT
    } else if zoom_percent > MAX_ZOOM_PERCENT {
        MAX_ZOOM_PERCENT
    } else {
        zoom_percent
    }
}

impl EditorSettings {
    /// The settings to begin with: those of the settings file, as it was parsed,
    /// or the default ones where there is no such file.
    pub fn load(file: Option<std::result::Result<EditorSettings, String>>) -> (settings: Result<Self>)
        ensures
            fails_as(
                settings,
                match file {
                    Some(Err(detail)) => Some(ErrorModel::Settings(detail@)),
                    _ => None,
                },
            ),
            settings matches Ok(settings) ==> settings@ == (match file {
                Some(Ok(parsed)) => parsed@,
                _ => default_settings(),
            }),
    {
        match file {
            None => Ok(EditorSettings::default()),
            Some(Ok(parsed)) => Ok(parsed),
            Some(Err(detail)) => Err(BlitzError::Settings(detail)),
        }
    }

    pub fn set_zoom_percent(&mut self, zoom_percent: u16)
        ensures
            final(self)@ == (SettingsModel {
                zoom_percent: clamped_zoom(zoom_percent),
                ..old(self)@
            }),
            *final(self) == (EditorSettings {
                zoom_percent: clamped_zoom(zoom_percent),
                ..*old(self)
            }),
    {
        self.zoom_percent = if zoom_percent < MIN_ZOOM_PERCENT {
            MIN_ZOOM_PERCENT
        } else if zoom_percent > MAX_ZOOM_PERCENT {
            MAX_ZOOM_PERCENT
        } else {
            zoom_percent
        };
    }
}

} // verus!
