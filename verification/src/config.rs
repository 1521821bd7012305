//! Architecture parameters of the spiking transformer.

use vstd::prelude::*;

verus! {

/// Sizes of one network: input image, patch grid, embedding and block layout.
#[derive(Clone, Debug)]
pub struct SdtConfig {
    /// Input image height.
    pub img_size_h: usize,
    /// Input image width.
    pub img_size_w: usize,
    /// Side of one patch: the image is `patch_size` times as large as the token grid.
    pub patch_size: usize,
    /// Input channels.
    pub in_channels: usize,
    /// Number of classes.
    pub num_classes: usize,
    /// Embedding width.
    pub embed_dims: usize,
    /// Attention heads.
    pub num_heads: usize,
    /// Widening factor of the hidden MLP layer.
    pub mlp_ratio: usize,
    /// Number of transformer blocks.
    pub depths: usize,
    /// Time steps.
    pub time_steps: usize,
    /// Whether each of the four patch stages is followed by max pooling.
    pub pooling_stat: [bool; 4],
}

impl SdtConfig {
    /// The small CIFAR-10 network: 32x32 images, patch side 16, 256 channels.
    pub open spec fn spec_default() -> SdtConfig {
        SdtConfig {
            img_size_h: 32,
            img_size_w: 32,
            patch_size: 16,
            in_channels: 3,
            num_classes: 10,
            embed_dims: 256,
            num_heads: 8,
            mlp_ratio: 4,
            depths: 2,
            time_steps: 4,
            pooling_stat: [false, false, true, true],
        }
    }
}

impl Default for SdtConfig {
    fn default() -> (c: SdtConfig)
        ensures
            c == SdtConfig::spec_default(),
    {
        SdtConfig {
            img_size_h: 32,
            img_size_w: 32,
            patch_size: 16,
            in_channels: 3,
            num_classes: 10,
            embed_dims: 256,
            num_heads: 8,
            mlp_ratio: 4,
            depths: 2,
            time_steps: 4,
            pooling_stat: [false, false, true, true],
        }
    }
}

impl SdtConfig {
    /// Height of the feature map: `img_size_h / patch_size`.
    pub fn feat_h(&self) -> (h: usize)
        requires
            self.patch_size > 0,
        ensures
            h == self.img_size_h as int / self.patch_size as int,
    {
        self.img_size_h / self.patch_size
    }

    /// Width of the feature map: `img_size_w / patch_size`.
    pub fn feat_w(&self) -> (w: usize)
        requires
            self.patch_size > 0,
        ensures
            w == self.img_size_w as int / self.patch_size as int,
    {
        self.img_size_w / self.patch_size
    }

    /// Number of patch tokens.
    pub open spec fn spec_num_patches(&self) -> int {
        (self.img_size_h as int / self.patch_size as int) * (self.img_size_w as int
            / self.patch_size as int)
    }

    /// Number of patch tokens: the area of the feature map.
    pub fn num_patches(&self) -> (n: usize)
        requires
            self.patch_size > 0,
            self.spec_num_patches() <= usize::MAX,
        ensures
            n == self.spec_num_patches(),
    {
        self.feat_h() * self.feat_w()
    }

    /// Width of the hidden MLP layer.
    pub fn mlp_hidden(&self) -> (n: usize)
        requires
            self.embed_dims * self.mlp_ratio <= usize::MAX,
        ensures
            n == self.embed_dims * self.mlp_ratio,
    {
        self.embed_dims * self.mlp_ratio
    }
}

/// The default network has a 2x2 token grid and a hidden layer of 1024.
pub proof fn default_config_sizes()
    ensures
        SdtConfig::spec_default().spec_num_patches() == 4,
        SdtConfig::spec_default().embed_dims * SdtConfig::spec_default().mlp_ratio == 1024,
{
}

} // verus!
