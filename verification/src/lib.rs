pub mod batch;
pub mod channel;
pub mod error;
pub mod extrema;
pub mod laws;
pub mod raster;
pub mod transform;

pub use batch::{decode, decode_image, encode, encode_image, get_largest_image, get_minmax};
pub use channel::{abs_diff, process_color_decode, process_color_encode};
pub use error::TransformError;
pub use extrema::{accumulate, larger_of, Differential, MinMaxImg};
pub use raster::{flatten, img_to_rgb, rgb_to_img};
pub use transform::{decode_pixels, encode_pixels, ToggleState};
