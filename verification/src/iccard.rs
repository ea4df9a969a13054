//! The dorm-utility billing application's data shapes and endpoint scheme.

use vstd::prelude::*;

verus! {

/// One campus area that has dorm buildings.
#[derive(Debug)]
pub struct DormArea {
    pub name: String,
    pub id: String,
}

/// The buildings of one area, as the billing endpoint lists them.
#[derive(Debug)]
pub struct DormBuildingsData {
    pub area: DormBuildingsArea,
    pub errmsg: String,
    pub buildingtab: Vec<DormBuilding>,
    pub aid: String,
    pub account: String,
    pub retcode: String,
}

/// An area as the billing endpoint names it.
#[derive(Debug)]
pub struct DormBuildingsArea {
    pub area: String,
    pub areaname: String,
}

/// One dorm building.
#[derive(Debug)]
pub struct DormBuilding {
    pub building: String,
    pub buildingid: String,
}

/// One dorm room.
#[derive(Debug)]
pub struct DormRoom {
    pub roomid: String,
    pub room: String,
}

/// One floor of a dorm building.
#[derive(Debug)]
pub struct DormFloor {
    pub floorid: String,
    pub floor: String,
}

/// The billing application: its root URL and the endpoints under it.
#[derive(Debug)]
pub struct ICCardApplication {
    pub root: String,
}

impl ICCardApplication {
    /// The full URL of one endpoint under the application root.
    pub fn endpoint(&self, endpoint: &str) -> (r: String)
        ensures
            r@ == self.root@ + "/"@ + endpoint@,
    {
        let mut r = self.root.clone();
        r.append("/");
        r.append(endpoint);
        r
    }
}

/// What a study-time exam endpoint reports.
#[derive(Debug)]
pub struct LabExamStudyInfo {
    pub status: i32,
    pub total: String,
}

} // verus!
