//! Requests.

use vstd::prelude::*;

use crate::rtsp::message::{
    method_text, version_text, RtspMessage, RtspMethod, RtspVersion, ToText,
};
use crate::rtsp::uri::{Url, UrlView};

verus! {

/// The request line of a request.
#[derive(Debug, Clone)]
pub struct RtspRequestLine {
    pub method: RtspMethod,
    pub uri: Url,
    pub version: RtspVersion,
}

/// A request line as plain values.
pub struct RequestLineView {
    pub method: RtspMethod,
    pub uri: UrlView,
    pub version: RtspVersion,
}

impl View for RtspRequestLine {
    type V = RequestLineView;

    open spec fn view(&self) -> RequestLineView {
        RequestLineView { method: self.method, uri: self.uri@, version: self.version }
    }
}

/// A request.
pub type RtspRequest = RtspMessage<RtspRequestLine>;

/// The text of a request line.
pub open spec fn request_line_text(line: RequestLineView) -> Seq<char> {
    method_text(line.method) + seq![' '] + line.uri.text + seq![' '] + version_text(line.version)
}

impl ToText for RtspRequestLine {
    open spec fn text(&self) -> Seq<char> {
        request_line_text(self@)
    }

    fn to_string(&self) -> (r: String) {
        proof {
            reveal_strlit(" ");
            assert(" "@ =~= seq![' ']);
        }
        let mut s = self.method.to_string();
        s.append(" ");
        s.append(self.uri.as_str());
        s.append(" ");
        s.append(self.version.to_string().as_str());
        assert(s@ =~= self.text());
        s
    }
}

} // verus!
