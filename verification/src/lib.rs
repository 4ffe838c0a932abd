pub mod add;
pub mod bitcrush;
pub mod blend;
pub mod blender_mosaic;
pub mod buffer;
pub mod chop;
pub mod cut;
pub mod delayer;
pub mod error;
pub mod fade;
pub mod flanger;
pub mod fx;
pub mod gain;
pub mod highpass;
pub mod join;
pub mod laws;
pub mod len;
pub mod lowpass;
pub mod m4ze;
pub mod maxgain;
pub mod mix;
pub mod mosaic;
pub mod outbreaker;
pub mod overdrive;
pub mod pick;
pub mod rat;
pub mod remix;
pub mod resize;
pub mod reverb;
pub mod reverse;
pub mod rng;
pub mod sample;
pub mod samplicat;
pub mod silence;
pub mod speed;
pub mod split;
pub mod strutil;
pub mod time;
pub mod utils;
pub mod x;
pub mod xfade;

pub use buffer::Buffer;
pub use buffer::Format;
pub use buffer::MAX_SAMPLES;
pub use buffer::SCALE;
pub use error::Error;
pub use rat::Rat;
