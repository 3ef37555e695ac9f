//! What the workspace bar paints: the colours each button takes in each
//! pointer state, and where the settings icon comes from and how it is tinted.
//! Reading the icon file and rasterising are done by the caller.

use crate::assets::{
    color_bytes, icon, icon_names, name_position, recolor_symbolic_svg, recolor_text,
    replace_token, token_at, utf8_valid, IconSpec, RecolorError, SYSTEM_ASSET_ROOT,
};
use crate::session::{join_path, joined};
use crate::ui_core::{Color, Palette, RenderError};
use crate::workspace_bar::{InteractionState, WorkspaceBarTarget};
use crate::workspace_types::WorkspaceId;
use vstd::prelude::*;

verus! {

/// The pointer state the painter draws.
#[derive(Clone, Copy, Debug, PartialEq, Eq, Structural)]
pub struct WorkspaceBarVisualState {
    pub interaction: InteractionState,
}

impl Default for WorkspaceBarVisualState {
    fn default() -> (r: Self)
        ensures
            r.interaction.hovered is None,
            r.interaction.pressed is None,
    {
        WorkspaceBarVisualState { interaction: InteractionState::default() }
    }
}

/// Why the bar could not be painted.
#[derive(Clone, Debug, PartialEq, Eq)]
pub enum WorkspaceBarRenderError {
    MissingIcon(String),
    ReadAsset { path: String, message: String },
    Recolor(String),
    Render(RenderError),
}

/// Fill, outline and text colour of one button.
#[derive(Clone, Copy, Debug, PartialEq, Eq, Structural)]
pub struct ButtonStyle {
    pub fill: Color,
    pub stroke: Color,
    pub text: Color,
}

/// Fill of a workspace button: the active workspace is always accented;
/// otherwise a pressed button beats a hovered one, which beats the surface.
pub open spec fn workspace_fill(p: Palette, active: bool, hovered: bool, pressed: bool) -> Color {
    if active {
        p.accent
    } else if pressed {
        p.selection
    } else if hovered {
        p.surface_alt
    } else {
        p.surface
    }
}

/// Fill of the settings button.
pub open spec fn settings_fill(p: Palette, hovered: bool, pressed: bool) -> Color {
    if pressed {
        p.selection
    } else if hovered {
        p.surface_alt
    } else {
        p.surface
    }
}

impl WorkspaceBarVisualState {
    /// The style of the button of workspace `id`.
    pub fn workspace_button(&self, palette: Palette, id: WorkspaceId, active: bool) -> (r:
        ButtonStyle)
        ensures
            r.fill == workspace_fill(
                palette,
                active,
                self.interaction.hovered == Some(WorkspaceBarTarget::Workspace(id)),
                self.interaction.pressed == Some(WorkspaceBarTarget::Workspace(id)),
            ),
            r.stroke == (if active {
                palette.accent
            } else {
                palette.border
            }),
            r.text == (if active {
                palette.accent_text
            } else {
                palette.text
            }),
    {
        let target = Some(WorkspaceBarTarget::Workspace(id));
        let fill = if active {
            palette.accent
        } else if self.interaction.pressed == target {
            palette.selection
        } else if self.interaction.hovered == target {
            palette.surface_alt
        } else {
            palette.surface
        };
        if active {
            ButtonStyle { fill, stroke: palette.accent, text: palette.accent_text }
        } else {
            ButtonStyle { fill, stroke: palette.border, text: palette.text }
        }
    }

    /// The style of the settings button.
    pub fn settings_button(&self, palette: Palette) -> (r: ButtonStyle)
        ensures
            r.fill == settings_fill(
                palette,
                self.interaction.hovered == Some(WorkspaceBarTarget::Settings),
                self.interaction.pressed == Some(WorkspaceBarTarget::Settings),
            ),
            r.stroke == palette.border,
            r.text == palette.text,
    {
        let target = Some(WorkspaceBarTarget::Settings);
        let fill = if self.interaction.pressed == target {
            palette.selection
        } else if self.interaction.hovered == target {
            palette.surface_alt
        } else {
            palette.surface
        };
        ButtonStyle { fill, stroke: palette.border, text: palette.text }
    }
}

/// The file of an icon under an asset root.
pub open spec fn icon_file(root: Seq<char>, relative: Seq<char>) -> Seq<char> {
    joined(joined(root, "icons"@), relative)
}

/// A symbolic SVG tinted with `color`, or why it cannot be.
pub open spec fn tinted(svg: Seq<u8>, color: Color) -> Result<Seq<u8>, RecolorError> {
    if !utf8_valid(svg) {
        Err(RecolorError::InvalidUtf8)
    } else if !(exists|i: int| token_at(svg, i)) {
        Err(RecolorError::PaletteTokenMissing)
    } else {
        Ok(replace_token(svg, color_bytes(seq![color.r, color.g, color.b])))
    }
}

/// Where the bar's assets are read from; replaceable for tests.
#[derive(Clone, Debug)]
pub struct AssetSource {
    root: String,
}

impl Default for AssetSource {
    fn default() -> (r: Self)
        ensures
            r.spec_root() == SYSTEM_ASSET_ROOT@,
    {
        AssetSource::new(SYSTEM_ASSET_ROOT.to_owned())
    }
}

impl AssetSource {
    pub closed spec fn spec_root(&self) -> Seq<char> {
        self.root@
    }

    pub fn new(root: String) -> (r: Self)
        ensures
            r.spec_root() == root@,
    {
        AssetSource { root }
    }

    pub fn root(&self) -> (r: &str)
        ensures
            r@ == self.spec_root(),
    {
        self.root.as_str()
    }

    /// The catalog entry of a symbolic icon and the file it is read from.
    pub fn symbolic_file(&self, name: &str) -> (r: Result<(IconSpec, String), WorkspaceBarRenderError>)
        ensures
            name_position(icon_names(), name@) < icon_names().len() ==> (r matches Ok((spec, path))
                && spec.name@ == name@ && path@ == icon_file(self.spec_root(), spec.relative_path@)),
            name_position(icon_names(), name@) >= icon_names().len() ==> (r matches Err(
                WorkspaceBarRenderError::MissingIcon(n),
            ) && n@ == name@),
    {
        match icon(name) {
            None => Err(WorkspaceBarRenderError::MissingIcon(name.to_owned())),
            Some(spec) => {
                let dir = join_path(self.root.as_str(), "icons");
                let path = join_path(dir.as_str(), spec.relative_path);
                Ok((spec, path))
            },
        }
    }
}

/// The bytes drawn for an icon that was read: tinted with `color` when the
/// icon is tintable, as read otherwise.
pub fn symbolic_bytes(spec: IconSpec, bytes: Vec<u8>, color: Color) -> (r: Result<
    Vec<u8>,
    WorkspaceBarRenderError,
>)
    ensures
        !spec.tintable ==> (r matches Ok(b) && b@ == bytes@),
        spec.tintable ==> match tinted(bytes@, color) {
            Ok(out) => r matches Ok(b) && b@ == out,
            Err(e) => r matches Err(WorkspaceBarRenderError::Recolor(m)) && m@ == recolor_text(e),
        },
{
    if !spec.tintable {
        return Ok(bytes);
    }
    let rgb: [u8; 3] = [color.r, color.g, color.b];
    proof {
        assert(rgb@ =~= seq![color.r, color.g, color.b]);
    }
    match recolor_symbolic_svg(bytes.as_slice(), rgb) {
        Ok(out) => Ok(out),
        Err(e) => Err(WorkspaceBarRenderError::Recolor(e.message().to_owned())),
    }
}

} // verus!
