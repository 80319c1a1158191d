use crate::data::constraints::Constraint;
use crate::data::timeslot::TimeSlot;
use vstd::prelude::*;

verus! {

/// One schedulable lecture occurrence of a course.
///
/// `valid_rooms` holds room indices into the owning instance's room list;
/// an empty list is the sentinel for "every room is valid".
pub struct Event {
    pub course_id: String,
    pub teacher: String,
    pub students: usize,
    pub curriculum_id: Option<String>,
    pub constraints: Vec<Constraint>,
    pub banned_timeslots: Vec<TimeSlot>,
    pub valid_rooms: Vec<usize>,
}

impl Event {
    /// The curriculum id as a value the contracts can compare.
    pub open spec fn spec_curriculum(self) -> Option<Seq<char>> {
        match self.curriculum_id {
            Some(id) => Some(id@),
            None => None,
        }
    }

    pub fn new(id: String, teacher: String, students: usize) -> (e: Event)
        ensures
            e.course_id@ == id@,
            e.teacher@ == teacher@,
            e.students == students,
            e.curriculum_id is None,
            e.constraints@ =~= Seq::<Constraint>::empty(),
            e.banned_timeslots@ =~= Seq::<TimeSlot>::empty(),
            e.valid_rooms@ =~= Seq::<usize>::empty(),
    {
        Event {
            course_id: id,
            teacher,
            students,
            curriculum_id: None,
            constraints: Vec::new(),
            banned_timeslots: Vec::new(),
            valid_rooms: Vec::new(),
        }
    }

    pub fn add_curriculum_id(&mut self, id: String)
        ensures
            *final(self) == (Event { curriculum_id: Some(id), ..*old(self) }),
    {
        self.curriculum_id = Some(id);
    }

    pub fn add_constraint(&mut self, constraint: Constraint)
        ensures
            final(self).constraints@ == old(self).constraints@.push(constraint),
            final(self).course_id == old(self).course_id,
            final(self).teacher == old(self).teacher,
            final(self).students == old(self).students,
            final(self).curriculum_id == old(self).curriculum_id,
            final(self).banned_timeslots == old(self).banned_timeslots,
            final(self).valid_rooms == old(self).valid_rooms,
    {
        self.constraints.push(constraint);
    }

    pub fn course_id(&self) -> (r: &str)
        ensures
            r@ == self.course_id@,
    {
        self.course_id.as_str()
    }

    pub fn teacher(&self) -> (r: &str)
        ensures
            r@ == self.teacher@,
    {
        self.teacher.as_str()
    }

    pub fn num_students(&self) -> (n: usize)
        ensures
            n == self.students,
    {
        self.students
    }

    pub fn curriculum_id(&self) -> (r: Option<&String>)
        ensures
            r is Some <==> self.curriculum_id is Some,
            r is Some ==> (r->0)@ == (self.curriculum_id->0)@,
    {
        self.curriculum_id.as_ref()
    }

    pub fn constraints(&self) -> (r: &Vec<Constraint>)
        ensures
            r == &self.constraints,
    {
        &self.constraints
    }

    pub fn set_banned_timeslots(&mut self, banned_timeslots: Vec<TimeSlot>)
        ensures
            *final(self) == (Event { banned_timeslots, ..*old(self) }),
    {
        self.banned_timeslots = banned_timeslots;
    }

    pub fn banned_timeslots(&self) -> (r: &Vec<TimeSlot>)
        ensures
            r == &self.banned_timeslots,
    {
        &self.banned_timeslots
    }

    pub fn add_banned_timeslot(&mut self, timeslot: TimeSlot)
        ensures
            final(self).banned_timeslots@ == old(self).banned_timeslots@.push(timeslot),
            final(self).course_id == old(self).course_id,
            final(self).teacher == old(self).teacher,
            final(self).students == old(self).students,
            final(self).curriculum_id == old(self).curriculum_id,
            final(self).constraints == old(self).constraints,
            final(self).valid_rooms == old(self).valid_rooms,
    {
        self.banned_timeslots.push(timeslot);
    }

    pub fn set_valid_rooms(&mut self, valid_rooms: Vec<usize>)
        ensures
            *final(self) == (Event { valid_rooms, ..*old(self) }),
    {
        self.valid_rooms = valid_rooms;
    }

    /// The declared valid-room list, or `None` for an unrestricted event.
    pub fn valid_rooms(&self) -> (r: Option<&Vec<usize>>)
        ensures
            self.valid_rooms@.len() == 0 ==> r is None,
            self.valid_rooms@.len() > 0 ==> (match r {
                Some(v) => v == &self.valid_rooms,
                None => false,
            }),
    {
        if self.valid_rooms.len() == 0 {
            None
        } else {
            Some(&self.valid_rooms)
        }
    }
}

} // verus!
