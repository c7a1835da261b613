//! A steppable perceptron for binary linear classification in the plane.
//!
//! The learner owns an ordered sequence of integer-coordinate labeled points
//! and a three-component integer weight vector `(bias, w1, w2)`. Each call to
//! [`Perceptron::update`] applies at most one weight correction, or detects
//! that a full pass over the points produced no correction and marks the
//! learner converged. Because points and initial weights are integers and a
//! correction only ever adds `label * (1, x, y)`, the weights stay integral
//! forever; the library therefore models them as integers outright.

mod boundary;
mod convergence;
mod editor;
mod learner;
mod vec3;

pub use boundary::LineSegment;
pub use boundary::Ratio;
pub use boundary::boundary_segment;
pub use boundary::on_boundary;
pub use convergence::advance_n;
pub use convergence::alignment_deficit;
pub use convergence::cs_defect;
pub use convergence::lemma_contradictory_pair_never_converges_ever;
pub use convergence::lemma_converged_forever;
pub use convergence::lemma_separable_eventually_converges;
pub use convergence::norm2;
pub use convergence::separates;
pub use editor::first_at_position;
pub use editor::modify_datapoint;
pub use learner::Datapoint;
pub use learner::Label;
pub use learner::Perceptron;
pub use learner::PerceptronView;
pub use learner::apply_update_at;
pub use learner::feature;
pub use learner::first_misclassified_from;
pub use learner::label_value;
pub use learner::lemma_contradictory_pair_never_converges;
pub use learner::lemma_converged_stable;
pub use learner::lemma_first_misclassified_exists;
pub use learner::lemma_first_misclassified_none;
pub use learner::lemma_first_misclassified_some;
pub use learner::lemma_spec_update_preserves_wf;
pub use learner::lemma_step_granularity;
pub use learner::lemma_update_deterministic;
pub use learner::misclassified;
pub use learner::score;
pub use learner::spec_update;
pub use learner::update_fits;
pub use vec3::Vec3;
pub use vec3::add_scaled3;
pub use vec3::dot3;
