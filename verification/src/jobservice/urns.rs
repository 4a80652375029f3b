//! The names by which pipelines refer to transforms and coders.
use vstd::prelude::*;

verus! {

pub const IMPULSE_TRANSFORM: &'static str = "beam:transform:impulse:v1";

pub const PAR_DO_TRANSFORM: &'static str = "beam:transform:pardo:v1";

pub const FLATTEN_TRANSFORM: &'static str = "beam:transform:flatten:v1";

pub const GROUP_BY_KEY_TRANSFORM: &'static str = "beam:transform:group_by_key:v1";

pub const ASSIGN_WINDOWS_TRANSFORM: &'static str = "beam:transform:window_into:v1";

pub const CREATE_VIEW_TRANSFORM: &'static str = "beam:transform:create_view:v1";

pub const COMBINE_PER_KEY_PRECOMBINE_TRANSFORM_URN: &'static str =
    "beam:transform:combine_per_key_precombine:v1";

pub const COMBINE_PER_KEY_MERGE_ACCUMULATORS_TRANSFORM_URN: &'static str =
    "beam:transform:combine_per_key_merge_accumulators:v1";

pub const COMBINE_PER_KEY_EXTRACT_OUTPUTS_TRANSFORM_URN: &'static str =
    "beam:transform:combine_per_key_extract_outputs:v1";

pub const SPLITTABLE_PAIR_WITH_RESTRICTION_URN: &'static str =
    "beam:transform:sdf_pair_with_restriction:v1";

pub const SPLITTABLE_SPLIT_AND_SIZE_RESTRICTIONS_URN: &'static str =
    "beam:transform:sdf_split_and_size_restrictions:v1";

pub const SPLITTABLE_PROCESS_SIZED_ELEMENTS_AND_RESTRICTIONS_URN: &'static str =
    "beam:transform:sdf_process_sized_element_and_restrictions:v1";

pub const SPLITTABLE_TRUNCATE_SIZED_RESTRICTION_URN: &'static str =
    "beam:transform:sdf_truncate_sized_restrictions:v1";

pub const SPLITTABLE_PROCESS_KEYED_URN: &'static str =
    "beam:transform:sdf_process_keyed_elements:v1";

pub const SPLITTABLE_PROCESS_ELEMENTS_URN: &'static str = "beam:transform:sdf_process_elements:v1";

pub const BYTES_CODER: &'static str = "beam:coder:bytes:v1";

pub const STRING_UTF8_CODER: &'static str = "beam:coder:string_utf8:v1";

pub const VARINT_CODER: &'static str = "beam:coder:varint:v1";

pub const BOOL_CODER: &'static str = "beam:coder:bool:v1";

pub const DOUBLE_CODER: &'static str = "beam:coder:double:v1";

pub const KV_CODER: &'static str = "beam:coder:kv:v1";

pub const ITERABLE_CODER: &'static str = "beam:coder:iterable:v1";

pub const TUPLE_CODER: &'static str = "beam:coder:tuple:v1";

pub const NULLABLE_CODER: &'static str = "beam:coder:nullable:v1";

pub const LENGTH_PREFIX_CODER: &'static str = "beam:coder:length_prefix:v1";

pub const PYTHON_PICKLE_CODER: &'static str = "beam:coder:pickled_python:v1";

pub const GLOBAL_WINDOW_CODER: &'static str = "beam:coder:global_window:v1";

pub const WINDOWED_VALUE_CODER: &'static str = "beam:coder:windowed_value:v1";

pub const JAVA_SDK_CODER: &'static str = "beam:coders:javasdk:0.1";

pub const BEAM_SOURCE: &'static str = "beam:runner:source:v1";

pub const BEAM_SINK: &'static str = "beam:runner:sink:v1";

pub const PROCESS_ENVIRONMENT: &'static str = "beam:env:process:v1";

} // verus!
