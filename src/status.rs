use vstd::prelude::*;

verus! {

/// Named HTTP status codes.
pub struct Status;

impl Status {
    pub fn success() -> (r: u16)
        ensures
            r == 200,
    {
        200
    }

    pub fn created() -> (r: u16)
        ensures
            r == 201,
    {
        201
    }

    pub fn accepted() -> (r: u16)
        ensures
            r == 202,
    {
        202
    }

    pub fn no_content() -> (r: u16)
        ensures
            r == 204,
    {
        204
    }

    pub fn bad_request() -> (r: u16)
        ensures
            r == 400,
    {
        400
    }

    pub fn unauthorized() -> (r: u16)
        ensures
            r == 401,
    {
        401
    }

    pub fn forbidden() -> (r: u16)
        ensures
            r == 403,
    {
        403
    }

    pub fn not_found() -> (r: u16)
        ensures
            r == 404,
    {
        404
    }

    pub fn method_not_allowed() -> (r: u16)
        ensures
            r == 405,
    {
        405
    }

    pub fn internal_server_error() -> (r: u16)
        ensures
            r == 500,
    {
        500
    }

    pub fn not_implemented() -> (r: u16)
        ensures
            r == 501,
    {
        501
    }

    pub fn bad_gateway() -> (r: u16)
        ensures
            r == 502,
    {
        502
    }

    pub fn service_unavailable() -> (r: u16)
        ensures
            r == 503,
    {
        503
    }
}

} // verus!
