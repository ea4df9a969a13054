//! The data shapes of the tunnel gateway's client API.

use vstd::prelude::*;

verus! {

/// The gateway's uniform response envelope.
#[derive(Debug)]
pub struct Message<T> {
    pub code: String,
    pub messages: String,
    pub data: T,
}

/// The per-user proxy configuration.
#[derive(Debug)]
pub struct ElinkProxyData {
    pub token: String,
    pub server: String,
    pub tunnel_free_interval: i32,
    pub tunnel_free_status: bool,
    pub spa_status: bool,
    pub fwd_status: bool,
    pub spa_port: String,
    pub admin_port: String,
    pub gateway_list: Vec<ElinkProxyGatewayList>,
}

/// One proxy gateway entry.
#[derive(Debug)]
pub struct ElinkProxyGatewayList {
    pub dns: String,
}

/// One user group of the gateway.
#[derive(Debug)]
pub struct ElinkGroupInfo {
    pub name: String,
    pub id: String,
    pub description: String,
    pub creator: String,
    pub createtime: String,
    pub updator: String,
    pub auth_type_id: String,
    pub updatetime: String,
}

/// The gateway's record of one user.
#[derive(Debug)]
pub struct ElinkUserInfoData {
    pub username: String,
    pub name: String,
    pub id: String,
    pub email: String,
    pub mobile: String,
    pub user_state: String,
    pub lastlogintime: String,
    pub user_groups: Vec<ElinkGroupInfo>,
    pub creator: String,
    pub createtime: String,
    pub updator: String,
    pub updatetime: String,
    pub ding_nick_name: String,
    pub qy_we_chat_user_id: String,
    pub we_chat_nick_name: String,
}

/// A node of the service tree.
#[derive(Debug)]
pub struct ElinkServiceInfoData {
    pub title: String,
    pub key: String,
    pub children: Option<Vec<ElinkServiceInfoData>>,
    pub service_list: Option<Vec<ElinkServiceData>>,
    pub service_all_list: Option<Vec<ElinkServiceData>>,
}

/// One gateway a service is reachable through.
#[derive(Debug)]
pub struct ElinkServiceGatewayData {
    pub id: String,
    pub name: String,
    pub unique_no: String,
    pub server: String,
    pub description: String,
    pub type_of: String,
    pub admin_addr: String,
    pub nginx_port: String,
    pub connect_state: String,
    pub public_server: String,
}

/// One service published through the tunnel.
#[derive(Debug)]
pub struct ElinkServiceData {
    pub id: String,
    pub name: String,
    pub icon: String,
    pub server: String,
    pub description: String,
    pub type_of: String,
    pub url_plus: String,
    pub host_md5: String,
    pub gateway_vo: Option<ElinkServiceGatewayData>,
}

} // verus!
