//! Notification texts. Each message kind has an exactly specified body
//! builder; delivering a toast is the outer layer's business, which
//! also reads the summary line (the application name) from here.

use vstd::prelude::*;
use vstd::string::StringExecFns;

verus! {

/// The character of one decimal digit.
pub open spec fn digit_char(d: int) -> char {
    if d == 0 {
        '0'
    } else if d == 1 {
        '1'
    } else if d == 2 {
        '2'
    } else if d == 3 {
        '3'
    } else if d == 4 {
        '4'
    } else if d == 5 {
        '5'
    } else if d == 6 {
        '6'
    } else if d == 7 {
        '7'
    } else if d == 8 {
        '8'
    } else {
        '9'
    }
}

/// The decimal rendering of a battery percentage.
pub open spec fn spec_decimal(n: int) -> Seq<char>
    recommends
        0 <= n <= 100,
{
    if n >= 100 {
        seq![digit_char(1), digit_char(0), digit_char(0)]
    } else if n >= 10 {
        seq![digit_char(n / 10), digit_char(n % 10)]
    } else {
        seq![digit_char(n)]
    }
}

/// One decimal digit as text.
fn digit_str(d: i32) -> (r: &'static str)
    requires
        0 <= d <= 9,
    ensures
        r@ =~= seq![digit_char(d as int)],
{
    if d == 0 {
        proof {
            reveal_strlit("0");
        }
        "0"
    } else if d == 1 {
        proof {
            reveal_strlit("1");
        }
        "1"
    } else if d == 2 {
        proof {
            reveal_strlit("2");
        }
        "2"
    } else if d == 3 {
        proof {
            reveal_strlit("3");
        }
        "3"
    } else if d == 4 {
        proof {
            reveal_strlit("4");
        }
        "4"
    } else if d == 5 {
        proof {
            reveal_strlit("5");
        }
        "5"
    } else if d == 6 {
        proof {
            reveal_strlit("6");
        }
        "6"
    } else if d == 7 {
        proof {
            reveal_strlit("7");
        }
        "7"
    } else if d == 8 {
        proof {
            reveal_strlit("8");
        }
        "8"
    } else {
        proof {
            reveal_strlit("9");
        }
        "9"
    }
}

/// Append the decimal rendering of a percentage.
fn append_decimal(s: &mut String, n: i32)
    requires
        0 <= n <= 100,
    ensures
        final(s)@ == old(s)@ + spec_decimal(n as int),
{
    if n >= 100 {
        s.append("100");
        proof {
            reveal_strlit("100");
            assert("100"@ =~= spec_decimal(n as int));
        }
    } else if n >= 10 {
        let ghost s0 = s@;
        let tens = n / 10;
        let ones = n % 10;
        s.append(digit_str(tens));
        s.append(digit_str(ones));
        proof {
            assert(s@ =~= s0 + spec_decimal(n as int));
        }
    } else {
        s.append(digit_str(n));
    }
}

/// Holds the application name used as the summary of every
/// notification, and builds each message body.
pub struct Notify {
    pub app_name: String,
}

impl Notify {
    pub fn new() -> (n: Self)
        ensures
            n.app_name@ == "Razer Battery Report"@,
    {
        Self { app_name: "Razer Battery Report".to_owned() }
    }

    /// The summary line for outgoing notifications.
    pub fn app_name(&self) -> (r: &str)
        ensures
            r@ == self.app_name@,
    {
        self.app_name.as_str()
    }

    /// The body of a battery-low toast: `name: Battery low (level%)`.
    pub fn battery_low(&self, device_name: &str, battery_level: i32) -> (r: String)
        requires
            0 <= battery_level <= 100,
        ensures
            r@ == device_name@ + ": Battery low ("@ + spec_decimal(battery_level as int) + "%)"@,
    {
        let mut s = String::from_str(device_name);
        s.append(": Battery low (");
        append_decimal(&mut s, battery_level);
        s.append("%)");
        proof {
            assert(s@ =~= device_name@ + ": Battery low ("@ + spec_decimal(battery_level as int)
                + "%)"@);
        }
        s
    }

    /// The body of a battery-full toast: `name: Battery fully charged`.
    pub fn battery_full(&self, device_name: &str) -> (r: String)
        ensures
            r@ == device_name@ + ": Battery fully charged"@,
    {
        let mut s = String::from_str(device_name);
        s.append(": Battery fully charged");
        s
    }

    /// The body of a connect toast: `name: Connected`.
    pub fn device_connected(&self, device_name: &str) -> (r: String)
        ensures
            r@ == device_name@ + ": Connected"@,
    {
        let mut s = String::from_str(device_name);
        s.append(": Connected");
        s
    }

    /// The body of a disconnect toast: `name: Disconnected`.
    pub fn device_disconnecred(&self, device_name: &str) -> (r: String)
        ensures
            r@ == device_name@ + ": Disconnected"@,
    {
        let mut s = String::from_str(device_name);
        s.append(": Disconnected");
        s
    }
}

} // verus!
