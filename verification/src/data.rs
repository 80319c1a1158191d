//! The static description of one timetabling problem: events, rooms,
//! timeslots, and the constraints that score a candidate's grid cells.

pub mod constraints;
pub mod event;
pub mod instance;
pub mod room;
pub mod timeslot;

pub use self::constraints::{
    Constraint, CurriculumConstraint, RoomCapacityConstraint, RoomConstraint, TeacherConstraint,
    TimeSlotConstraint,
};
pub use self::event::Event;
pub use self::instance::Instance;
pub use self::room::Room;
pub use self::timeslot::TimeSlot;
