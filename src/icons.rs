//! The icons and portraits of an external singer's speakers, by speaker.
use std::collections::HashMap;

use vstd::prelude::*;

verus! {

/// The images of one speaker, one for each mood.
#[derive(Debug)]
pub struct StyleImages {
    pub normal: Vec<u8>,
    pub joy: Vec<u8>,
    pub anger: Vec<u8>,
    pub sorrow: Vec<u8>,
}

impl StyleImages {
    pub fn normal(&self) -> (r: &Vec<u8>)
        ensures
            *r == self.normal,
    {
        &self.normal
    }

    pub fn joy(&self) -> (r: &Vec<u8>)
        ensures
            *r == self.joy,
    {
        &self.joy
    }

    pub fn anger(&self) -> (r: &Vec<u8>)
        ensures
            *r == self.anger,
    {
        &self.anger
    }

    pub fn sorrow(&self) -> (r: &Vec<u8>)
        ensures
            *r == self.sorrow,
    {
        &self.sorrow
    }
}

/// Icons and portraits by speaker name.
#[derive(Debug)]
pub struct IconManager {
    pub icons: HashMap<String, StyleImages>,
    pub portraits: HashMap<String, StyleImages>,
}

impl IconManager {
    pub fn new() -> (r: IconManager)
        ensures
            r.icons@ == Map::<String, StyleImages>::empty(),
            r.portraits@ == Map::<String, StyleImages>::empty(),
    {
        IconManager { icons: HashMap::new(), portraits: HashMap::new() }
    }

    pub fn icons(&self) -> (r: &HashMap<String, StyleImages>)
        ensures
            r@ == self.icons@,
    {
        &self.icons
    }

    pub fn portraits(&self) -> (r: &HashMap<String, StyleImages>)
        ensures
            r@ == self.portraits@,
    {
        &self.portraits
    }
}

} // verus!
