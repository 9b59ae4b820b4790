//! Vendor release channels and their fixed URLs and cache names.
use vstd::prelude::*;

verus! {

#[derive(Debug, Clone, Copy, PartialEq, Eq, Structural)]
pub enum ChannelKind {
    Release,
    Preview,
}

impl ChannelKind {
    /// The public URL that redirects to the channel manifest.
    pub fn https_url(&self) -> (r: &'static str)
        ensures
            (*self == ChannelKind::Release) ==> r@ == "https://aka.ms/vs/17/release/channel"@,
            (*self == ChannelKind::Preview) ==> r@ == "https://aka.ms/vs/17/pre/channel"@,
    {
        match self {
            ChannelKind::Release => "https://aka.ms/vs/17/release/channel",
            ChannelKind::Preview => "https://aka.ms/vs/17/pre/channel",
        }
    }

    /// The channel item id that names the vendor manifest.
    pub fn vs_manifest_channel_id(&self) -> (r: &'static str)
        ensures
            (*self == ChannelKind::Release) ==> r@ == "Microsoft.VisualStudio.Manifests.VisualStudio"@,
            (*self == ChannelKind::Preview) ==> r@
                == "Microsoft.VisualStudio.Manifests.VisualStudioPreview"@,
    {
        match self {
            ChannelKind::Release => "Microsoft.VisualStudio.Manifests.VisualStudio",
            ChannelKind::Preview => "Microsoft.VisualStudio.Manifests.VisualStudioPreview",
        }
    }

    /// The cache subdirectory of the vendor manifest.
    pub fn subdir(&self) -> (r: &'static str)
        ensures
            (*self == ChannelKind::Release) ==> r@ == "vs-release"@,
            (*self == ChannelKind::Preview) ==> r@ == "vs-preview"@,
    {
        match self {
            ChannelKind::Release => "vs-release",
            ChannelKind::Preview => "vs-preview",
        }
    }

    /// The cache subdirectory of the channel manifest.
    pub fn channel_subdir(&self) -> (r: &'static str)
        ensures
            (*self == ChannelKind::Release) ==> r@ == "channel-release"@,
            (*self == ChannelKind::Preview) ==> r@ == "channel-preview"@,
    {
        match self {
            ChannelKind::Release => "channel-release",
            ChannelKind::Preview => "channel-preview",
        }
    }

    /// The cache subdirectory of the resolved channel manifest URL.
    pub fn channel_url_subdir(&self) -> (r: &'static str)
        ensures
            (*self == ChannelKind::Release) ==> r@ == "channel-release-url"@,
            (*self == ChannelKind::Preview) ==> r@ == "channel-preview-url"@,
    {
        match self {
            ChannelKind::Release => "channel-release-url",
            ChannelKind::Preview => "channel-preview-url",
        }
    }
}

} // verus!
