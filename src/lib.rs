//! Geometric front-end of a visual-odometry pipeline: the verified decisions
//! behind depth-map backprojection, rigid-transform and camera input checks,
//! descriptor match selection and frame numbering.
pub mod backprojection;
pub mod camera;
pub mod frame;
pub mod layout;
pub mod matching;
pub mod sampling;
