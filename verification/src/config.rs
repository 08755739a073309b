//! Configuration the downloader is constructed with. Loading and saving it
//! is a collaborator's business; the defaults are part of the library.

use vstd::prelude::*;
use vstd::string::*;

verus! {

/// Read-only configuration for a download run: where to write, how to name
/// files, how to talk to the site, and which image URLs are known bad.
#[derive(Debug)]
pub struct Config {
    pub output: String,
    pub template: String,
    pub cookie: String,
    pub sleep_time: u32,
    pub base_url: String,
    pub add_catalog: bool,
    pub error_img: Vec<String>,
    pub auto_check_update: bool,
}

/// Default output directory.
pub fn default_output() -> (r: String)
    ensures
        r@ == "./"@,
{
    String::from_str("./")
}

/// Default file-name template.
pub fn default_template() -> (r: String)
    ensures
        r@ == "{{book_title}}-{{chapter_title}}"@,
{
    String::from_str("{{book_title}}-{{chapter_title}}")
}

/// Default cookie: none.
pub fn default_cookie() -> (r: String)
    ensures
        r@.len() == 0,
{
    String::new()
}

/// Default pause between page requests, in seconds.
pub fn default_sleep_time() -> (r: u32)
    ensures
        r == 8,
{
    8
}

/// Default site base URL.
pub fn default_base_url() -> (r: String)
    ensures
        r@ == "https://www.bilinovel.com"@,
{
    String::from_str("https://www.bilinovel.com")
}

/// By default no catalog stylesheet is added.
pub fn default_add_catalog() -> (r: bool)
    ensures
        r == false,
{
    false
}

/// The image URLs known to be permanently broken at the source: retrying
/// them is pointless, so they are skipped with an empty placeholder.
pub fn default_error_img() -> (r: Vec<String>)
    ensures
        r@.len() == 7,
        r.deep_view()[0] == "https://www.xlcx996.xyz/image/novel/sister01.jpg"@,
        r.deep_view()[2] == "https://img3.readpai.com/3/3275/241359/263728.jpg"@,
        r.deep_view()[3] == "https://cdn-img.beixibaobao.cn/images/2vp7.png"@,
        r.deep_view()[4] == "https://s6.jpg.cm/2022/07/12/Pn4pQS.jpg"@,
        r.deep_view()[5] == "https://img1.imgtp.com/2022/07/26/S3ooRdwC.png"@,
        r.deep_view()[6] == "https://img1.imgtp.com/2022/07/27/3kRju45s.png"@,
{
    let mut v: Vec<String> = Vec::new();
    v.push(String::from_str("https://www.xlcx996.xyz/image/novel/sister01.jpg"));
    v.push(String::from_str("「<img"));
    v.push(String::from_str("https://img3.readpai.com/3/3275/241359/263728.jpg"));
    v.push(String::from_str("https://cdn-img.beixibaobao.cn/images/2vp7.png"));
    v.push(String::from_str("https://s6.jpg.cm/2022/07/12/Pn4pQS.jpg"));
    v.push(String::from_str("https://img1.imgtp.com/2022/07/26/S3ooRdwC.png"));
    v.push(String::from_str("https://img1.imgtp.com/2022/07/27/3kRju45s.png"));
    v
}

/// By default the version check runs.
pub fn default_auto_check_update() -> (r: bool)
    ensures
        r == true,
{
    true
}

impl Config {
    /// The default configuration.
    pub fn new() -> (c: Config)
        ensures
            c.output@ == "./"@,
            c.template@ == "{{book_title}}-{{chapter_title}}"@,
            c.cookie@.len() == 0,
            c.sleep_time == 8,
            c.base_url@ == "https://www.bilinovel.com"@,
            c.add_catalog == false,
            c.error_img@.len() == 0,
            c.auto_check_update == true,
    {
        Config {
            output: default_output(),
            template: default_template(),
            cookie: default_cookie(),
            sleep_time: default_sleep_time(),
            base_url: default_base_url(),
            add_catalog: default_add_catalog(),
            error_img: Vec::new(),
            auto_check_update: default_auto_check_update(),
        }
    }
}

} // verus!
