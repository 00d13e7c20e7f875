use vstd::prelude::*;

verus! {

/// The envelope in which every successful operation answers its caller.
pub struct ApiResponse<T> {
    pub code: i32,
    pub message: String,
    pub data: Option<T>,
}

impl<T> ApiResponse<T> {
    /// A success envelope around `data`: code 0 and the message "success".
    pub fn success(data: T) -> (r: Self)
        ensures
            r.code == 0,
            r.message@ == "success"@,
            r.data == Some(data),
    {
        let message = "success".to_string();
        proof {
            reveal_strlit("success");
        }
        ApiResponse { code: 0, message, data: Some(data) }
    }
}

} // verus!
